//! What the kernel tells of processes, memory and CPUs, and whether a process
//! may be moved to the prime CPU.

use vstd::prelude::*;
use vstd::slice::slice_subrange;

use crate::cpu::{ascending, format_cpu_list, insert_number, listed_cpus, parse_cpu_list};
use crate::files::{find_last, last_position};

use crate::text::{
    after_line, chars_of, decimal, eq_chars, eq_str_chars, find_char, first_word, lemma_after_line,
    parse_bounded, position_from, push_decimal, read_line, split_words, starts_with,
    starts_with_chars, string_of, texts, trim, trim_slice, unsigned, without_return, word_slice,
    words,
};

verus! {

/// The first line of a text that begins with `prefix`.
pub open spec fn line_with(text: Seq<char>, prefix: Seq<char>) -> Option<Seq<char>>
    decreases text.len() via line_with_decreases
{
    if text.len() == 0 {
        None
    } else if starts_with(without_return(text), prefix) {
        Some(without_return(text))
    } else {
        line_with(after_line(text), prefix)
    }
}

#[via_fn]
proof fn line_with_decreases(text: Seq<char>, prefix: Seq<char>) {
    lemma_after_line(text);
}

/// The first line of a text that begins with `prefix`.
pub fn find_line<'a>(text: &'a [char], prefix: &[char]) -> (r: Option<&'a [char]>)
    ensures
        r is Some <==> line_with(text@, prefix@) is Some,
        r matches Some(line) ==> line_with(text@, prefix@) == Some(line@) && starts_with(
            line@,
            prefix@,
        ),
{
    let mut rest = text;
    while rest.len() > 0
        invariant
            line_with(text@, prefix@) == line_with(rest@, prefix@),
        decreases rest@.len(),
    {
        let (end, next) = read_line(rest);
        let line = slice_subrange(rest, 0, end);
        assert(line@ =~= rest@.take(end as int));
        if starts_with_chars(line, prefix) {
            return Some(line);
        }
        let after = slice_subrange(rest, next, rest.len());
        assert(after@ =~= rest@.skip(next as int));
        rest = after;
    }
    None
}

/// A number that fits in 32 bits.
pub open spec fn number32(s: Seq<char>) -> Option<u32> {
    match unsigned(s) {
        Some(n) => if n <= u32::MAX {
            Some(n as u32)
        } else {
            None
        },
        None => None,
    }
}

/// A number that fits in 64 bits.
pub open spec fn number64(s: Seq<char>) -> Option<u64> {
    match unsigned(s) {
        Some(n) => if n <= u64::MAX {
            Some(n as u64)
        } else {
            None
        },
        None => None,
    }
}

fn parse_u32(s: &[char]) -> (r: Option<u32>)
    ensures
        r == number32(s@),
{
    match parse_bounded(s, u32::MAX as u64) {
        Some(n) => Some(n as u32),
        None => None,
    }
}

fn parse_u64(s: &[char]) -> (r: Option<u64>)
    ensures
        r == number64(s@),
{
    parse_bounded(s, u64::MAX)
}

/// Why the UIDs of a process could not be read.
#[derive(Clone, Copy, Debug, PartialEq, Eq, Structural)]
pub enum UidError {
    Missing,
    Invalid,
    /// The field does not hold four values.
    Count,
}

/// A list without its first member.
pub open spec fn after_first(list: Seq<Seq<char>>) -> Seq<Seq<char>> {
    if list.len() == 0 {
        list
    } else {
        list.skip(1)
    }
}

/// The UIDs of a process: real, effective, saved and filesystem.
pub open spec fn uids(status: Seq<char>) -> Result<Seq<u32>, UidError> {
    match line_with(status, "Uid:"@) {
        None => Err(UidError::Missing),
        Some(line) => {
            let values = after_first(words(line));
            if exists|i: int| 0 <= i < values.len() && number32(#[trigger] values[i]) is None {
                Err(UidError::Invalid)
            } else if values.len() != 4 {
                Err(UidError::Count)
            } else {
                Ok(values.map_values(|v: Seq<char>| number32(v)->Some_0))
            }
        },
    }
}

/// Reads the four UIDs of a process from its status.
pub fn parse_uids(status: &str) -> (r: Result<[u32; 4], UidError>)
    ensures
        match r {
            Ok(list) => uids(status@) == Ok::<Seq<u32>, UidError>(list@),
            Err(error) => uids(status@) == Err::<Seq<u32>, UidError>(error),
        },
{
    let chars = chars_of(status);
    let prefix = chars_of("Uid:");
    let line = match find_line(chars.as_slice(), prefix.as_slice()) {
        None => {
            return Err(UidError::Missing);
        },
        Some(line) => line,
    };
    let parts = split_words(line);
    let ghost all = texts(parts@);
    let ghost values = after_first(words(line@));
    assert(all == words(line@));
    assert(all.len() == parts@.len());
    let mut found: Vec<u32> = Vec::new();
    let mut i: usize = 1;
    while i < parts.len()
        invariant
            all == texts(parts@),
            all.len() == parts@.len(),
            all == words(line@),
            values == after_first(words(line@)),
            line_with(status@, "Uid:"@) == Some(line@),
            1 <= i,
            parts@.len() > 0 ==> i <= parts@.len(),
            found@.len() == i - 1,
            forall|j: int|
                0 <= j < i - 1 && j < values.len() ==> number32(#[trigger] values[j]) == Some(
                    found@[j],
                ),
        decreases parts@.len() - i,
    {
        assert(values[i - 1] == all[i as int]);
        assert(all[i as int] == parts@[i as int]@);
        match parse_u32(parts[i].as_slice()) {
            None => {
                assert(number32(values[i - 1]) is None);
                return Err(UidError::Invalid);
            },
            Some(n) => {
                found.push(n);
            },
        }
        i += 1;
    }
    assert(forall|j: int| 0 <= j < values.len() ==> number32(#[trigger] values[j]) is Some);
    if parts.len() != 5 {
        return Err(UidError::Count);
    }
    let list = [found[0], found[1], found[2], found[3]];
    assert(list@ =~= values.map_values(|v: Seq<char>| number32(v)->Some_0));
    Ok(list)
}

/// Why the start time of a process could not be read.
#[derive(Clone, Copy, Debug, PartialEq, Eq, Structural)]
pub enum StartTimeError {
    NoCommand,
    Missing,
    Invalid,
}

/// The start time of a process: the twentieth field after its command, which
/// stands in brackets and may hold brackets.
pub open spec fn start_time(stat: Seq<char>) -> Result<u64, StartTimeError> {
    let end = last_position(stat, ')');
    if end < 0 {
        Err(StartTimeError::NoCommand)
    } else {
        let fields = words(stat.skip(end + 1));
        if fields.len() <= 19 {
            Err(StartTimeError::Missing)
        } else {
            match number64(fields[19]) {
                Some(n) => Ok(n),
                None => Err(StartTimeError::Invalid),
            }
        }
    }
}

/// Reads the start time of a process.
pub fn parse_process_start_time(stat: &str) -> (r: Result<u64, StartTimeError>)
    ensures
        r == start_time(stat@),
{
    let chars = chars_of(stat);
    let n: usize = chars.len();
    let end = match find_last(chars.as_slice(), ')') {
        None => {
            return Err(StartTimeError::NoCommand);
        },
        Some(end) => end,
    };
    let rest = slice_subrange(chars.as_slice(), end + 1, n);
    assert(rest@ =~= stat@.skip(end + 1));
    let fields = split_words(rest);
    assert(texts(fields@).len() == fields@.len());
    if fields.len() <= 19 {
        return Err(StartTimeError::Missing);
    }
    assert(texts(fields@)[19] == fields@[19]@);
    match parse_u64(fields[19].as_slice()) {
        Some(n) => Ok(n),
        None => Err(StartTimeError::Invalid),
    }
}

/// The value that one line of `/proc/meminfo` gives for a key.
pub open spec fn meminfo_line(line: Seq<char>, key: Seq<char>) -> Option<u64> {
    let colon = position_from(line, 0, ':');
    if colon >= line.len() || line.take(colon) != key {
        None
    } else {
        number64(first_word(line.skip(colon + 1)))
    }
}

/// The value that `/proc/meminfo` gives for a key.
pub open spec fn meminfo_value(text: Seq<char>, key: Seq<char>) -> Option<u64>
    decreases text.len() via meminfo_decreases
{
    if text.len() == 0 {
        None
    } else if meminfo_line(without_return(text), key) is Some {
        meminfo_line(without_return(text), key)
    } else {
        meminfo_value(after_line(text), key)
    }
}

#[via_fn]
proof fn meminfo_decreases(text: Seq<char>, key: Seq<char>) {
    lemma_after_line(text);
}

/// The value in KiB that `/proc/meminfo` gives for a key.
pub fn meminfo_kib(meminfo: &str, key: &str) -> (r: Option<u64>)
    ensures
        r == meminfo_value(meminfo@, key@),
{
    let chars = chars_of(meminfo);
    let wanted = chars_of(key);
    let mut rest = chars.as_slice();
    while rest.len() > 0
        invariant
            wanted@ == key@,
            meminfo_value(meminfo@, key@) == meminfo_value(rest@, key@),
        decreases rest@.len(),
    {
        let (end, next) = read_line(rest);
        let line = slice_subrange(rest, 0, end);
        assert(line@ =~= rest@.take(end as int));
        let colon = find_char(line, 0, ':');
        if colon < line.len() {
            let name = slice_subrange(line, 0, colon);
            assert(name@ =~= line@.take(colon as int));
            if eq_chars(name, wanted.as_slice()) {
                let value = slice_subrange(line, colon + 1, line.len());
                assert(value@ =~= line@.skip(colon + 1));
                let found = parse_u64(word_slice(value));
                if found.is_some() {
                    return found;
                }
            }
        }
        let after = slice_subrange(rest, next, rest.len());
        assert(after@ =~= rest@.skip(next as int));
        rest = after;
    }
    None
}

/// The CPU that one line of `/proc/cpuinfo` names.
pub open spec fn processor_line(line: Seq<char>) -> Option<u32> {
    let colon = position_from(line, 0, ':');
    if colon >= line.len() || trim(line.take(colon)) != "processor"@ {
        None
    } else {
        number32(trim(line.skip(colon + 1)))
    }
}

/// The CPUs that `/proc/cpuinfo` names.
pub open spec fn processors(text: Seq<char>) -> Set<u32>
    decreases text.len() via processors_decreases
{
    if text.len() == 0 {
        Set::empty()
    } else {
        match processor_line(without_return(text)) {
            Some(cpu) => processors(after_line(text)).insert(cpu),
            None => processors(after_line(text)),
        }
    }
}

#[via_fn]
proof fn processors_decreases(text: Seq<char>) {
    lemma_after_line(text);
}

/// The CPUs that `/proc/cpuinfo` names, in ascending order, if it names any.
pub fn present_cpus(cpuinfo: &str) -> (r: Option<Vec<u32>>)
    ensures
        match r {
            Some(cpus) => ascending(cpus@) && cpus@.to_set() == processors(cpuinfo@)
                && cpus@.len() > 0,
            None => processors(cpuinfo@) == Set::<u32>::empty(),
        },
{
    let chars = chars_of(cpuinfo);
    let mut rest = chars.as_slice();
    let mut cpus: Vec<u32> = Vec::new();
    assert(cpus@.to_set().union(processors(rest@)) =~= processors(cpuinfo@));
    while rest.len() > 0
        invariant
            ascending(cpus@),
            cpus@.to_set().union(processors(rest@)) == processors(cpuinfo@),
        decreases rest@.len(),
    {
        let ghost before = cpus@.to_set();
        let (end, next) = read_line(rest);
        let line = slice_subrange(rest, 0, end);
        assert(line@ =~= rest@.take(end as int));
        let colon = find_char(line, 0, ':');
        let mut found: Option<u32> = None;
        if colon < line.len() {
            let name = slice_subrange(line, 0, colon);
            assert(name@ =~= line@.take(colon as int));
            if eq_str_chars("processor", trim_slice(name)) {
                let value = slice_subrange(line, colon + 1, line.len());
                assert(value@ =~= line@.skip(colon + 1));
                found = parse_u32(trim_slice(value));
            }
        }
        assert(found == processor_line(line@));
        let after = slice_subrange(rest, next, rest.len());
        assert(after@ =~= rest@.skip(next as int));
        if let Some(cpu) = found {
            insert_number(&mut cpus, cpu);
            assert(cpus@.to_set().union(processors(after@)) =~= before.union(
                processors(after@).insert(cpu),
            ));
        }
        rest = after;
    }
    assert(cpus@.to_set().union(Set::empty()) =~= cpus@.to_set());
    if cpus.len() == 0 {
        assert(cpus@.to_set() =~= Set::empty());
        None
    } else {
        Some(cpus)
    }
}

/// The CPUs that a process status allows.
pub open spec fn allowed_cpus(status: Seq<char>) -> Option<Set<u32>> {
    match line_with(status, "Cpus_allowed_list:"@) {
        None => None,
        Some(line) => match listed_cpus(trim(line.skip("Cpus_allowed_list:"@.len() as int))) {
            Ok(set) => Some(set),
            Err(_) => None,
        },
    }
}

/// The CPUs that a process status allows, in ascending order.
pub fn affinity_from_status(status: &str) -> (r: Option<Vec<u32>>)
    ensures
        match r {
            Some(cpus) => ascending(cpus@) && allowed_cpus(status@) == Some(cpus@.to_set()),
            None => allowed_cpus(status@) is None,
        },
{
    let chars = chars_of(status);
    let prefix = chars_of("Cpus_allowed_list:");
    match find_line(chars.as_slice(), prefix.as_slice()) {
        None => None,
        Some(line) => {
            proof {
                lemma_line_with(status@, "Cpus_allowed_list:"@);
            }
            let value = slice_subrange(line, prefix.len(), line.len());
            assert(value@ =~= line@.skip(prefix@.len() as int));
            let trimmed = trim_slice(value);
            let text = string_of(trimmed, 0, trimmed.len());
            assert(text@ =~= trimmed@);
            match parse_cpu_list(text.as_str()) {
                Ok(cpus) => Some(cpus),
                Err(_) => None,
            }
        },
    }
}

proof fn lemma_line_with(text: Seq<char>, prefix: Seq<char>)
    ensures
        line_with(text, prefix) matches Some(line) ==> starts_with(line, prefix),
    decreases text.len(),
{
    lemma_after_line(text);
    if text.len() > 0 && !starts_with(without_return(text), prefix) {
        lemma_line_with(after_line(text), prefix);
    }
}

/// The largest number of a list.
pub open spec fn is_largest(list: Seq<u32>, x: u32) -> bool {
    list.contains(x) && forall|i: int| 0 <= i < list.len() ==> (#[trigger] list[i]) <= x
}

/// The largest number of a list.
pub fn largest(list: &[u32]) -> (r: Option<u32>)
    ensures
        match r {
            Some(x) => is_largest(list@, x),
            None => list@.len() == 0,
        },
{
    if list.len() == 0 {
        return None;
    }
    let mut best: u32 = list[0];
    let mut i: usize = 1;
    assert(list@.contains(best));
    while i < list.len()
        invariant
            1 <= i <= list@.len(),
            list@.contains(best),
            forall|j: int| 0 <= j < i ==> (#[trigger] list@[j]) <= best,
        decreases list@.len() - i,
    {
        if list[i] > best {
            best = list[i];
            assert(list@[i as int] == best);
        }
        i += 1;
    }
    Some(best)
}

/// Whether a list holds a number.
pub fn holds_number(list: &[u32], x: u32) -> (r: bool)
    ensures
        r == list@.contains(x),
{
    let mut i: usize = 0;
    while i < list.len()
        invariant
            i <= list@.len(),
            forall|j: int| 0 <= j < i ==> list@[j] != x,
        decreases list@.len() - i,
    {
        if list[i] == x {
            return true;
        }
        i += 1;
    }
    false
}

/// The prime CPU of a device, and whether it may be used: the largest CPU
/// present, held against those allowed.
pub fn prime_state(present: &[u32], allowed: &[u32]) -> (r: Option<(u32, bool)>)
    ensures
        match r {
            Some((prime, available)) => is_largest(present@, prime) && available == allowed@.contains(
                prime,
            ),
            None => present@.len() == 0,
        },
{
    match largest(present) {
        None => None,
        Some(prime) => Some((prime, holds_number(allowed, prime))),
    }
}

/// Why the prime CPU cannot be used.
#[derive(Debug)]
pub enum PrimeError {
    /// No CPU is present.
    Unknown,
    /// The prime CPU is outside the live affinity.
    Withheld { prime: u32, allowed: String },
}

impl PrimeError {
    pub open spec fn text(self) -> Seq<char> {
        match self {
            PrimeError::Unknown => "could not identify the prime CPU"@,
            PrimeError::Withheld { prime, allowed } => "prime CPU "@ + decimal(prime as nat)
                + " is outside the live affinity ("@ + allowed@ + ")"@,
        }
    }

    /// The error in words.
    pub fn to_text(&self) -> (out: String)
        ensures
            out@ == self.text(),
    {
        match self {
            PrimeError::Unknown => "could not identify the prime CPU".to_owned(),
            PrimeError::Withheld { prime, allowed } => {
                let mut out = "prime CPU ".to_owned();
                push_decimal(&mut out, *prime as u64);
                out.append(" is outside the live affinity (");
                out.append(allowed.as_str());
                out.append(")");
                out
            },
        }
    }
}

/// The prime CPU, if it may be used.
pub fn select_prime_cpu(present: &[u32], allowed: &[u32]) -> (r: Result<u32, PrimeError>)
    ensures
        match r {
            Ok(prime) => is_largest(present@, prime) && allowed@.contains(prime),
            Err(PrimeError::Unknown) => present@.len() == 0,
            Err(PrimeError::Withheld { prime, allowed: text }) => {
                &&& is_largest(present@, prime)
                &&& !allowed@.contains(prime)
                &&& forall|list: Seq<u32>|
                    #![trigger ascending(list)]
                    ascending(list) && list.to_set() == allowed@.to_set() ==> text@
                        == crate::cpu::ranges_text(list, 0)
            },
        },
{
    match prime_state(present, allowed) {
        None => Err(PrimeError::Unknown),
        Some((prime, available)) => if available {
            Ok(prime)
        } else {
            Err(PrimeError::Withheld { prime, allowed: format_cpu_list(allowed) })
        },
    }
}

/// Whether a UID belongs to an Android app, for any of its users.
pub open spec fn app_uid(uid: u32) -> bool {
    10_000 <= uid % 100_000 <= 19_999
}

/// Whether a UID belongs to an Android app.
pub fn is_android_app_uid(uid: u32) -> (r: bool)
    ensures
        r == app_uid(uid),
{
    let app_id: u32 = uid % 100_000;
    10_000 <= app_id && app_id <= 19_999
}

/// The app UIDs among the owners of paths, in ascending order.
pub fn app_owner_uids(owners: &[u32]) -> (out: Vec<u32>)
    ensures
        ascending(out@),
        forall|uid: u32| out@.to_set().contains(uid) <==> owners@.contains(uid) && app_uid(uid),
{
    let mut out: Vec<u32> = Vec::new();
    let mut i: usize = 0;
    while i < owners.len()
        invariant
            i <= owners@.len(),
            ascending(out@),
            forall|uid: u32|
                #[trigger] out@.to_set().contains(uid) <==> owners@.take(i as int).contains(uid)
                    && app_uid(uid),
        decreases owners@.len() - i,
    {
        let uid: u32 = owners[i];
        let ghost before = out@.to_set();
        if is_android_app_uid(uid) {
            insert_number(&mut out, uid);
        }
        proof {
            let a = owners@.take(i + 1);
            let b = owners@.take(i as int);
            assert(a =~= b.push(uid));
            assert forall|x: u32| #[trigger] out@.to_set().contains(x) <==> a.contains(x) && app_uid(
                x,
            ) by {
                if a.contains(x) {
                    let k = choose|k: int| 0 <= k < a.len() && a[k] == x;
                    if k < i {
                        assert(b[k] == x);
                    }
                }
                if b.contains(x) {
                    let k = choose|k: int| 0 <= k < b.len() && b[k] == x;
                    assert(a[k] == x);
                }
                assert(a[i as int] == uid);
                assert(before.contains(x) <==> b.contains(x) && app_uid(x));
            }
        }
        i += 1;
    }
    assert(owners@.take(i as int) =~= owners@);
    out
}

/// Why a caller or a process is refused.
#[derive(Clone, Copy, Debug, PartialEq, Eq, Structural)]
pub enum IdentityError {
    /// The caller is no app.
    NotAnApp { uid: u32 },
    /// The caller does not own this installation.
    NotTheOwner { uid: u32 },
    /// Nobody owns this installation.
    NoOwner,
    ZeroPid,
    UidsDiffer { pid: u32 },
    UidMismatch { pid: u32, uid: u32, expected: u32 },
    ProcessNotAnApp { pid: u32, uid: u32 },
    StartTimeChanged { pid: u32 },
}

impl IdentityError {
    pub open spec fn text(self) -> Seq<char> {
        match self {
            IdentityError::NotAnApp { uid } => "uid "@ + decimal(uid as nat)
                + " is not an Android app uid"@,
            IdentityError::NotTheOwner { uid } => "uid "@ + decimal(uid as nat)
                + " is not the owner of this Termux installation"@,
            IdentityError::NoOwner =>
                "could not identify the Termux app uid from owned paths"@,
            IdentityError::ZeroPid => "PID must be positive"@,
            IdentityError::UidsDiffer { pid } => "refusing PID "@ + decimal(pid as nat)
                + ": real/effective/saved/filesystem UIDs differ"@,
            IdentityError::UidMismatch { pid, uid, expected } => "refusing PID "@ + decimal(
                pid as nat,
            ) + ": uid "@ + decimal(uid as nat) + " does not match Termux uid "@ + decimal(
                expected as nat,
            ),
            IdentityError::ProcessNotAnApp { pid, uid } => "refusing PID "@ + decimal(pid as nat)
                + ": uid "@ + decimal(uid as nat) + " is not an Android app uid"@,
            IdentityError::StartTimeChanged { pid } => "refusing PID "@ + decimal(pid as nat)
                + ": process start time changed (possible PID reuse)"@,
        }
    }

    /// The error in words.
    pub fn to_text(self) -> (out: String)
        ensures
            out@ == self.text(),
    {
        match self {
            IdentityError::NotAnApp { uid } => {
                let mut out = "uid ".to_owned();
                push_decimal(&mut out, uid as u64);
                out.append(" is not an Android app uid");
                out
            },
            IdentityError::NotTheOwner { uid } => {
                let mut out = "uid ".to_owned();
                push_decimal(&mut out, uid as u64);
                out.append(" is not the owner of this Termux installation");
                out
            },
            IdentityError::NoOwner =>
                "could not identify the Termux app uid from owned paths".to_owned(),
            IdentityError::ZeroPid => "PID must be positive".to_owned(),
            IdentityError::UidsDiffer { pid } => {
                let mut out = "refusing PID ".to_owned();
                push_decimal(&mut out, pid as u64);
                out.append(": real/effective/saved/filesystem UIDs differ");
                out
            },
            IdentityError::UidMismatch { pid, uid, expected } => {
                let mut out = "refusing PID ".to_owned();
                push_decimal(&mut out, pid as u64);
                out.append(": uid ");
                push_decimal(&mut out, uid as u64);
                out.append(" does not match Termux uid ");
                push_decimal(&mut out, expected as u64);
                out
            },
            IdentityError::ProcessNotAnApp { pid, uid } => {
                let mut out = "refusing PID ".to_owned();
                push_decimal(&mut out, pid as u64);
                out.append(": uid ");
                push_decimal(&mut out, uid as u64);
                out.append(" is not an Android app uid");
                out
            },
            IdentityError::StartTimeChanged { pid } => {
                let mut out = "refusing PID ".to_owned();
                push_decimal(&mut out, pid as u64);
                out.append(": process start time changed (possible PID reuse)");
                out
            },
        }
    }
}

/// The app on whose behalf a caller acts: itself, or for root the first owner
/// of the installation. `owners` is in ascending order.
pub fn caller_app_uid(effective_uid: u32, owners: &[u32]) -> (r: Result<u32, IdentityError>)
    ensures
        r == if effective_uid != 0 {
            if !app_uid(effective_uid) {
                Err::<u32, IdentityError>(IdentityError::NotAnApp { uid: effective_uid })
            } else if !owners@.contains(effective_uid) {
                Err(IdentityError::NotTheOwner { uid: effective_uid })
            } else {
                Ok(effective_uid)
            }
        } else if owners@.len() == 0 {
            Err(IdentityError::NoOwner)
        } else {
            Ok(owners@[0])
        },
{
    if effective_uid != 0 {
        if !is_android_app_uid(effective_uid) {
            return Err(IdentityError::NotAnApp { uid: effective_uid });
        }
        if !holds_number(owners, effective_uid) {
            return Err(IdentityError::NotTheOwner { uid: effective_uid });
        }
        return Ok(effective_uid);
    }
    if owners.len() == 0 {
        return Err(IdentityError::NoOwner);
    }
    Ok(owners[0])
}

/// Checks whose a process is, by its four UIDs.
pub fn validate_process_uids(pid: u32, uids: &[u32; 4], expected_uid: u32) -> (r: Result<
    u32,
    IdentityError,
>)
    ensures
        r == if pid == 0 {
            Err::<u32, IdentityError>(IdentityError::ZeroPid)
        } else if !(uids@[1] == uids@[0] && uids@[2] == uids@[0] && uids@[3] == uids@[0]) {
            Err(IdentityError::UidsDiffer { pid })
        } else if uids@[0] != expected_uid {
            Err(IdentityError::UidMismatch { pid, uid: uids@[0], expected: expected_uid })
        } else if !app_uid(uids@[0]) {
            Err(IdentityError::ProcessNotAnApp { pid, uid: uids@[0] })
        } else {
            Ok(uids@[0])
        },
{
    if pid == 0 {
        return Err(IdentityError::ZeroPid);
    }
    let uid: u32 = uids[0];
    if uids[1] != uid || uids[2] != uid || uids[3] != uid {
        return Err(IdentityError::UidsDiffer { pid });
    }
    if uid != expected_uid {
        return Err(IdentityError::UidMismatch { pid, uid, expected: expected_uid });
    }
    if !is_android_app_uid(uid) {
        return Err(IdentityError::ProcessNotAnApp { pid, uid });
    }
    Ok(uid)
}

/// Checks that a process is still the one that was looked at.
pub fn validate_start_time(pid: u32, start_time: u64, expected: Option<u64>) -> (r: Result<
    (),
    IdentityError,
>)
    ensures
        r == if expected is Some && expected->Some_0 != start_time {
            Err::<(), IdentityError>(IdentityError::StartTimeChanged { pid })
        } else {
            Ok(())
        },
{
    if let Some(time) = expected {
        if time != start_time {
            return Err(IdentityError::StartTimeChanged { pid });
        }
    }
    Ok(())
}

} // verus!
