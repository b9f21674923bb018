//! Embedding a tree of foreign runtimes into a generated program, and taking it
//! out again when the program starts.

use vstd::prelude::*;

use crate::launch::reserved_names;
use crate::outside::{hex_encode, hex_text, sha256, sha256_digest};
use crate::paths::slash;
use crate::text::{
    chars_of, given, has_char, members, split, split_by, starts_with, starts_with_chars, string_of,
    texts, views,
};

verus! {

/// Why a runtime tree cannot be embedded, or taken out again.
#[derive(Debug)]
pub enum EmbedError {
    Schema,
    /// An execution profile that is not known.
    Profile(String),
    /// A name at the top of the tree that belongs to its execution.
    Reserved(String),
    NoCommands,
    /// A variable that may not be set.
    EnvironmentKey(String),
    /// A value that does not start with the place of the tree.
    EnvironmentValue,
    /// A value that may lead out of the tree.
    EnvironmentOutside,
    /// A value that does lead out of the tree.
    EnvironmentEscapes,
    InvalidPath(String),
    LinkEscapes(String),
    NotAFile(String),
    LinkTargetEscapes(String),
    NoExecutable,
    EntryPoint,
    InsertionPoint,
    Template,
    /// A file whose content is not what was embedded.
    Digest(String),
    NotEntered,
    NoEntropy,
}

impl EmbedError {
    pub open spec fn text(self) -> Seq<char> {
        match self {
            EmbedError::Schema => "unsupported embedded runtime manifest schema"@,
            EmbedError::Profile(name) => "unsupported embedded execution profile "@ + name@,
            EmbedError::Reserved(name) => "reserved rootfs execution path: "@ + name@,
            EmbedError::NoCommands => "runtime bundle requires bin/"@,
            EmbedError::EnvironmentKey(key) => "unsupported runtime environment key "@ + key@,
            EmbedError::EnvironmentValue => "runtime environment values must start with ${BUNDLE}/"@,
            EmbedError::EnvironmentOutside => "runtime environment path must remain inside bundle"@,
            EmbedError::EnvironmentEscapes => "runtime environment escapes bundle"@,
            EmbedError::InvalidPath(name) => "invalid bundle path "@ + name@,
            EmbedError::LinkEscapes(name) => "bundle link escapes its root: "@ + name@,
            EmbedError::NotAFile(name) => "bundle accepts regular files and internal file links only: "@
                + name@,
            EmbedError::LinkTargetEscapes(path) => "bundle link target escapes its root: "@ + path@,
            EmbedError::NoExecutable => "runtime bundle has no executable bin entry"@,
            EmbedError::EntryPoint => "generated rootfs entry point is missing or ambiguous"@,
            EmbedError::InsertionPoint => "generated runtime bootstrap insertion point is missing or ambiguous"@,
            EmbedError::Template => "invalid runtime environment template"@,
            EmbedError::Digest(name) => "embedded runtime digest mismatch: "@ + name@,
            EmbedError::NotEntered => "rootfs must be entered before evaluator startup"@,
            EmbedError::NoEntropy => "failed to obtain entropy for runtime bundle"@,
        }
    }

    /// The message.
    pub fn to_text(&self) -> (out: String)
        ensures
            out@ == self.text(),
    {
        match self {
            EmbedError::Schema => "unsupported embedded runtime manifest schema".to_owned(),
            EmbedError::Profile(name) => "unsupported embedded execution profile ".to_owned().concat(
                name.as_str(),
            ),
            EmbedError::Reserved(name) => "reserved rootfs execution path: ".to_owned().concat(
                name.as_str(),
            ),
            EmbedError::NoCommands => "runtime bundle requires bin/".to_owned(),
            EmbedError::EnvironmentKey(key) => "unsupported runtime environment key ".to_owned().concat(
            key.as_str()),
            EmbedError::EnvironmentValue => "runtime environment values must start with ${BUNDLE}/".to_owned(),
            EmbedError::EnvironmentOutside => "runtime environment path must remain inside bundle".to_owned(),
            EmbedError::EnvironmentEscapes => "runtime environment escapes bundle".to_owned(),
            EmbedError::InvalidPath(name) => "invalid bundle path ".to_owned().concat(name.as_str()),
            EmbedError::LinkEscapes(name) => "bundle link escapes its root: ".to_owned().concat(
                name.as_str(),
            ),
            EmbedError::NotAFile(name) => "bundle accepts regular files and internal file links only: ".to_owned().concat(
            name.as_str()),
            EmbedError::LinkTargetEscapes(path) => "bundle link target escapes its root: ".to_owned().concat(
            path.as_str()),
            EmbedError::NoExecutable => "runtime bundle has no executable bin entry".to_owned(),
            EmbedError::EntryPoint => "generated rootfs entry point is missing or ambiguous".to_owned(),
            EmbedError::InsertionPoint => "generated runtime bootstrap insertion point is missing or ambiguous".to_owned(),
            EmbedError::Template => "invalid runtime environment template".to_owned(),
            EmbedError::Digest(name) => "embedded runtime digest mismatch: ".to_owned().concat(
                name.as_str(),
            ),
            EmbedError::NotEntered => "rootfs must be entered before evaluator startup".to_owned(),
            EmbedError::NoEntropy => "failed to obtain entropy for runtime bundle".to_owned(),
        }
    }
}

/// Why a runtime tree is refused, its texts as sequences.
pub ghost enum EmbedFault {
    Schema,
    Profile(Seq<char>),
    Reserved(Seq<char>),
    NoCommands,
    EnvironmentKey(Seq<char>),
    EnvironmentValue,
    EnvironmentOutside,
    EnvironmentEscapes,
    InvalidPath(Seq<char>),
    LinkEscapes(Seq<char>),
    NotAFile(Seq<char>),
    LinkTargetEscapes(Seq<char>),
    NoExecutable,
    EntryPoint,
    InsertionPoint,
    Template,
    Digest(Seq<char>),
    NotEntered,
    NoEntropy,
}

impl EmbedError {
    pub open spec fn fault(self) -> EmbedFault {
        match self {
            EmbedError::Schema => EmbedFault::Schema,
            EmbedError::Profile(name) => EmbedFault::Profile(name@),
            EmbedError::Reserved(name) => EmbedFault::Reserved(name@),
            EmbedError::NoCommands => EmbedFault::NoCommands,
            EmbedError::EnvironmentKey(key) => EmbedFault::EnvironmentKey(key@),
            EmbedError::EnvironmentValue => EmbedFault::EnvironmentValue,
            EmbedError::EnvironmentOutside => EmbedFault::EnvironmentOutside,
            EmbedError::EnvironmentEscapes => EmbedFault::EnvironmentEscapes,
            EmbedError::InvalidPath(name) => EmbedFault::InvalidPath(name@),
            EmbedError::LinkEscapes(name) => EmbedFault::LinkEscapes(name@),
            EmbedError::NotAFile(name) => EmbedFault::NotAFile(name@),
            EmbedError::LinkTargetEscapes(name) => EmbedFault::LinkTargetEscapes(name@),
            EmbedError::NoExecutable => EmbedFault::NoExecutable,
            EmbedError::EntryPoint => EmbedFault::EntryPoint,
            EmbedError::InsertionPoint => EmbedFault::InsertionPoint,
            EmbedError::Template => EmbedFault::Template,
            EmbedError::Digest(name) => EmbedFault::Digest(name@),
            EmbedError::NotEntered => EmbedFault::NotEntered,
            EmbedError::NoEntropy => EmbedFault::NoEntropy,
        }
    }
}

/// Whether a path leads below the place that it starts from: it names every
/// step, and none of them leads back.
pub open spec fn leads_below(path: Seq<char>) -> bool {
    let parts = split_by(path, slash());
    &&& path.len() > 0
    &&& parts[0].len() > 0
    &&& parts[0] != "."@
    &&& !parts.contains(".."@)
}

fn dots(part: &Vec<char>, count: usize) -> (r: bool)
    requires
        count == 1 || count == 2,
    ensures
        count == 1 ==> r == (part@ == "."@),
        count == 2 ==> r == (part@ == ".."@),
{
    if count == 1 {
        crate::text::eq_str_chars(".", part.as_slice())
    } else {
        crate::text::eq_str_chars("..", part.as_slice())
    }
}

/// Whether a path leads below the place that it starts from.
pub fn relative(path: &str) -> (r: bool)
    ensures
        r == leads_below(path@),
{
    let chars = chars_of(path);
    if chars.len() == 0 {
        return false;
    }
    let set: Vec<char> = vec!['/'];
    assert(set@ =~= seq!['/']);
    let parts = split(chars.as_slice(), set.as_slice(), false);
    let ghost all = texts(parts@);
    assert(all[0] == parts@[0]@);
    if parts[0].len() == 0 || dots(&parts[0], 1) {
        return false;
    }
    let mut i: usize = 0;
    while i < parts.len()
        invariant
            i <= parts@.len(),
            all == texts(parts@),
            all == split_by(path@, slash()),
            forall|j: int| 0 <= j < i ==> all[j] != ".."@,
        decreases parts@.len() - i,
    {
        assert(all[i as int] == parts@[i as int]@);
        if dots(&parts[i], 2) {
            return false;
        }
        i += 1;
    }
    true
}

/// How deep a link leads, part by part, from a directory at a depth below the
/// root; nothing, where a part leads out of the root.
pub open spec fn depth_after(parts: Seq<Seq<char>>, depth: nat) -> Option<nat>
    decreases parts.len(),
{
    if parts.len() == 0 {
        Some(depth)
    } else {
        match depth_after(parts.drop_last(), depth) {
            None => None,
            Some(d) => if parts.last().len() == 0 || parts.last() == "."@ {
                Some(d)
            } else if parts.last() == ".."@ {
                if d == 0 {
                    None
                } else {
                    Some((d - 1) as nat)
                }
            } else {
                Some(d + 1)
            },
        }
    }
}

/// Steps back to the root, from a depth below it.
pub open spec fn steps_back(depth: nat) -> Seq<char>
    decreases depth,
{
    if depth == 0 {
        Seq::empty()
    } else {
        steps_back((depth - 1) as nat) + "../"@
    }
}

/// A link's target once the tree stands elsewhere: a target from the top becomes
/// one from the link's own directory, another one stays, if it never leaves the
/// tree.
pub open spec fn relocated(depth: nat, original: Seq<char>, below: Seq<char>) -> Option<Seq<char>> {
    if original.len() > 0 && original[0] == '/' {
        Some(steps_back(depth) + below)
    } else if depth_after(split_by(original, slash()), depth) is Some {
        Some(original)
    } else {
        None
    }
}

proof fn lemma_depth_prefix(parts: Seq<Seq<char>>, depth: nat, k: int)
    requires
        0 <= k <= parts.len(),
        depth_after(parts, depth) is Some,
    ensures
        depth_after(parts.take(k), depth) is Some,
    decreases parts.len(),
{
    if k == parts.len() {
        assert(parts.take(k) =~= parts);
    } else {
        lemma_depth_prefix(parts.drop_last(), depth, k);
        assert(parts.drop_last().take(k) =~= parts.take(k));
    }
}

/// A link that is kept never leaves the tree, not even to come back into it.
pub proof fn kept_links_stay_inside(depth: nat, original: Seq<char>, below: Seq<char>, k: int)
    requires
        relocated(depth, original, below) == Some(original),
        !(original.len() > 0 && original[0] == '/'),
        0 <= k <= split_by(original, slash()).len(),
    ensures
        depth_after(split_by(original, slash()).take(k), depth) is Some,
{
    lemma_depth_prefix(split_by(original, slash()), depth, k);
}

/// A link's target once the tree stands elsewhere. `below` is what the target
/// comes to, below the root; `depth` is how deep the link's directory lies.
pub fn relocated_link_target(depth: usize, original: &str, below: &str) -> (r: Option<String>)
    ensures
        crate::text::shown_as(r) == relocated(depth as nat, original@, below@),
{
    let chars = chars_of(original);
    if chars.len() > 0 && chars[0] == '/' {
        let mut out = String::new();
        let mut i: usize = 0;
        assert(out@ =~= steps_back(0));
        while i < depth
            invariant
                i <= depth,
                out@ == steps_back(i as nat),
            decreases depth - i,
        {
            out.append("../");
            i += 1;
        }
        out.append(below);
        return Some(out);
    }
    let set: Vec<char> = vec!['/'];
    assert(set@ =~= seq!['/']);
    let parts = split(chars.as_slice(), set.as_slice(), false);
    let ghost all = texts(parts@);
    let mut d: u128 = depth as u128;
    let mut i: usize = 0;
    assert(all.take(0).len() == 0);
    while i < parts.len()
        invariant
            all == texts(parts@),
            all == split_by(original@, slash()),
            i <= parts@.len(),
            d <= depth + i,
            depth_after(all.take(i as int), depth as nat) == Some(d as nat),
            !(original@.len() > 0 && original@[0] == '/'),
        decreases parts@.len() - i,
    {
        assert(all.take(i + 1).drop_last() =~= all.take(i as int));
        assert(all.take(i + 1).last() == parts@[i as int]@);
        if parts[i].len() == 0 || dots(&parts[i], 1) {
        } else if dots(&parts[i], 2) {
            if d == 0 {
                proof {
                    if depth_after(all, depth as nat) is Some {
                        lemma_depth_prefix(all, depth as nat, i + 1);
                    }
                }
                return None;
            }
            d -= 1;
        } else {
            d += 1;
        }
        i += 1;
    }
    assert(all.take(i as int) =~= all);
    Some(original.to_owned())
}

/// The variables that a tree may set.
pub open spec fn settable(key: Seq<char>) -> bool {
    key == "PYTHONHOME"@ || key == "PYTHONPATH"@ || key == "NODE_PATH"@ || key == "RUBYLIB"@ || key
        == "GEM_HOME"@ || key == "GEM_PATH"@ || key == "JAVA_HOME"@ || key == "DOTNET_ROOT"@ || key
        == "LD_LIBRARY_PATH"@ || key == "DYLD_LIBRARY_PATH"@
}

fn may_set(key: &str) -> (r: bool)
    ensures
        r == settable(key@),
{
    *key == *"PYTHONHOME" || *key == *"PYTHONPATH" || *key == *"NODE_PATH" || *key == *"RUBYLIB"
        || *key == *"GEM_HOME" || *key == *"GEM_PATH" || *key == *"JAVA_HOME" || *key
        == *"DOTNET_ROOT" || *key == *"LD_LIBRARY_PATH" || *key == *"DYLD_LIBRARY_PATH"
}

/// What stands behind the place of the tree in a value.
pub open spec fn behind_bundle(value: Seq<char>) -> Option<Seq<char>> {
    let prefix = "${BUNDLE}/"@;
    if starts_with(value, prefix) {
        Some(value.skip(prefix.len() as int))
    } else {
        None
    }
}

fn bundle_suffix(value: &str) -> (r: Option<String>)
    ensures
        crate::text::shown_as(r) == behind_bundle(value@),
{
    let chars = chars_of(value);
    let prefix = chars_of("${BUNDLE}/");
    if starts_with_chars(chars.as_slice(), prefix.as_slice()) {
        let rest = string_of(chars.as_slice(), prefix.len(), chars.len());
        assert(rest@ =~= value@.skip(prefix@.len() as int));
        Some(rest)
    } else {
        None
    }
}

/// What is wrong with a variable, if anything is; `inside` says whether its
/// value leads to a place in the tree.
pub open spec fn environment_problem(key: Seq<char>, value: Seq<char>, inside: bool) -> Option<
    EmbedFault,
> {
    if !settable(key) {
        Some(EmbedFault::EnvironmentKey(key))
    } else {
        match behind_bundle(value) {
            None => Some(EmbedFault::EnvironmentValue),
            Some(suffix) => if !leads_below(suffix) || suffix.contains('\0') || suffix.contains(
                ':',
            ) {
                Some(EmbedFault::EnvironmentOutside)
            } else if !inside {
                Some(EmbedFault::EnvironmentEscapes)
            } else {
                None
            },
        }
    }
}

/// Checks a variable of a manifest. Its place in the tree is looked at only
/// where everything else is in order.
pub fn check_environment(key: &str, value: &str, inside: bool) -> (r: Result<String, EmbedError>)
    ensures
        match r {
            Ok(suffix) => environment_problem(key@, value@, inside) is None && behind_bundle(value@)
                == Some(suffix@),
            Err(error) => environment_problem(key@, value@, inside) == Some(error.fault()),
        },
{
    if !may_set(key) {
        return Err(EmbedError::EnvironmentKey(key.to_owned()));
    }
    match bundle_suffix(value) {
        None => Err(EmbedError::EnvironmentValue),
        Some(suffix) => {
            let chars = chars_of(suffix.as_str());
            if !relative(suffix.as_str()) || has_char(chars.as_slice(), '\0') || has_char(
                chars.as_slice(),
                ':',
            ) {
                Err(EmbedError::EnvironmentOutside)
            } else if !inside {
                Err(EmbedError::EnvironmentEscapes)
            } else {
                Ok(suffix)
            }
        },
    }
}

/// Whether a manifest asks for an own root filesystem.
pub open spec fn profile_of(schema: Seq<char>, execution: Option<Seq<char>>) -> Result<
    bool,
    EmbedFault,
> {
    if schema != "ostadix.embedded-runtime/v1"@ {
        Err(EmbedFault::Schema)
    } else if execution is None || execution->Some_0 == "host"@ {
        Ok(false)
    } else if execution->Some_0 == "linux-rootfs-v1"@ {
        Ok(true)
    } else {
        Err(EmbedFault::Profile(execution->Some_0))
    }
}

/// Whether a manifest asks for an own root filesystem.
pub fn execution_profile(schema: &str, execution: Option<&str>) -> (r: Result<bool, EmbedError>)
    ensures
        match r {
            Ok(rootfs) => profile_of(schema@, given(execution)) == Ok::<bool, EmbedFault>(rootfs),
            Err(error) => profile_of(schema@, given(execution)) == Err::<bool, EmbedFault>(
                error.fault(),
            ),
        },
{
    if *schema != *"ostadix.embedded-runtime/v1" {
        return Err(EmbedError::Schema);
    }
    match execution {
        None => Ok(false),
        Some(name) => if *name == *"host" {
            Ok(false)
        } else if *name == *"linux-rootfs-v1" {
            Ok(true)
        } else {
            Err(EmbedError::Profile(name.to_owned()))
        },
    }
}

/// The first of some names that is taken.
pub open spec fn first_taken(names: Seq<Seq<char>>, taken: Seq<Seq<char>>) -> Option<Seq<char>>
    decreases names.len(),
{
    if names.len() == 0 {
        None
    } else {
        match first_taken(names.drop_last(), taken) {
            Some(name) => Some(name),
            None => if taken.contains(names.last()) {
                Some(names.last())
            } else {
                None
            },
        }
    }
}

/// What is wrong with the top of a tree, if anything is: a name is taken that
/// belongs to its execution, where it is to be a root filesystem, or there is no
/// place for commands.
pub open spec fn top_fault(rootfs: bool, taken: Seq<Seq<char>>, has_commands: bool) -> Option<
    EmbedFault,
> {
    if rootfs && first_taken(reserved_names(), taken) is Some {
        Some(EmbedFault::Reserved(first_taken(reserved_names(), taken)->Some_0))
    } else if !has_commands {
        Some(EmbedFault::NoCommands)
    } else {
        None
    }
}

proof fn lemma_first_taken(names: Seq<Seq<char>>, taken: Seq<Seq<char>>, i: int)
    requires
        0 <= i <= names.len(),
        first_taken(names.take(i), taken) is Some,
    ensures
        first_taken(names, taken) == first_taken(names.take(i), taken),
    decreases names.len(),
{
    if i == names.len() {
        assert(names.take(i) =~= names);
    } else {
        assert(names.drop_last().take(i) =~= names.take(i));
        lemma_first_taken(names.drop_last(), taken, i);
    }
}

/// The first name at the top that belongs to the execution of an image and is
/// taken.
pub fn reserved_and_taken(taken: &[String]) -> (r: Option<&'static str>)
    ensures
        given(r) == first_taken(reserved_names(), views(taken@)),
{
    let names = crate::launch::reserved_paths();
    let ghost all = reserved_names();
    let ghost list = views(taken@);
    assert(all.len() == names@.len());
    assert(all.take(0).len() == 0);
    let mut i: usize = 0;
    while i < names.len()
        invariant
            i <= names@.len(),
            all == reserved_names(),
            list == views(taken@),
            all.len() == names@.len(),
            all == names@.map_values(|s: &'static str| s@),
            first_taken(all.take(i as int), list) is None,
        decreases names@.len() - i,
    {
        assert(all[i as int] == names@[i as int]@);
        assert(all.take(i + 1).drop_last() =~= all.take(i as int));
        assert(all.take(i + 1).last() == all[i as int]);
        let chars = chars_of(names[i]);
        if crate::text::list_contains(taken, chars.as_slice()) {
            proof {
                lemma_members_contain(taken@, names@[i as int]@);
                lemma_first_taken(all, list, i + 1);
            }
            return Some(names[i]);
        }
        proof {
            lemma_members_contain(taken@, names@[i as int]@);
        }
        i += 1;
    }
    assert(all.take(i as int) =~= all);
    None
}

proof fn lemma_members_contain(list: Seq<String>, text: Seq<char>)
    ensures
        members(list).contains(text) <==> views(list).contains(text),
{
    if views(list).contains(text) {
        let i = choose|i: int| 0 <= i < views(list).len() && views(list)[i] == text;
        assert(list[i]@ == text);
    }
    if members(list).contains(text) {
        let i = choose|i: int| 0 <= i < list.len() && list[i]@ == text;
        assert(views(list)[i] == text);
    }
}

/// Checks the top of a tree.
pub fn check_top(rootfs: bool, taken: &[String], has_commands: bool) -> (r: Result<(), EmbedError>)
    ensures
        match r {
            Ok(_) => top_fault(rootfs, views(taken@), has_commands) is None,
            Err(error) => top_fault(rootfs, views(taken@), has_commands) == Some(error.fault()),
        },
{
    if rootfs {
        match reserved_and_taken(taken) {
            Some(name) => {
                return Err(EmbedError::Reserved(name.to_owned()));
            },
            None => {},
        }
    }
    if !has_commands {
        return Err(EmbedError::NoCommands);
    }
    Ok(())
}

/// The digest of some bytes, as it is written down.
pub open spec fn digest_text(bytes: Seq<u8>) -> Seq<char> {
    hex_text(sha256(bytes))
}

/// The digest of some bytes, as it is written down.
pub fn digest_of(bytes: &[u8]) -> (out: String)
    ensures
        out@ == digest_text(bytes@),
{
    hex_encode(sha256_digest(bytes).as_slice())
}

} // verus!
