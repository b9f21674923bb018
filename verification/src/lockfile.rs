//! The lock of a generated package: the workspace's, cut down to what the
//! package needs.

use vstd::prelude::*;

use crate::codegen::{GENERATED_PACKAGE_NAME, GENERATED_PACKAGE_VERSION};
use crate::text::{
    ascending, chars_of, copied, decimal, eq_str_chars, find_char, insert_ascending, members, position_from,
    push_decimal, shown_as, split_words, texts, views, words,
};

verus! {

/// A package of a lock.
#[derive(Debug)]
pub struct LockPackage {
    pub name: String,
    pub version: String,
    pub source: Option<String>,
    pub checksum: Option<String>,
    pub dependencies: Option<Vec<String>>,
}

/// A package of a lock, as a mathematical value.
pub ghost struct LockEntry {
    pub name: Seq<char>,
    pub version: Seq<char>,
    pub source: Option<Seq<char>>,
    pub checksum: Option<Seq<char>>,
    pub dependencies: Option<Seq<Seq<char>>>,
}

impl View for LockPackage {
    type V = LockEntry;

    open spec fn view(&self) -> LockEntry {
        LockEntry {
            name: self.name@,
            version: self.version@,
            source: shown_as(self.source),
            checksum: shown_as(self.checksum),
            dependencies: match self.dependencies {
                Some(list) => Some(views(list@)),
                None => None,
            },
        }
    }
}

pub open spec fn entries(list: Seq<LockPackage>) -> Seq<LockEntry> {
    list.map_values(|p: LockPackage| p@)
}

/// Why a lock cannot be cut down.
#[derive(Debug)]
pub enum LockError {
    /// The workspace's own package stands there not at all, or more than once.
    NoRoot,
    NoDependencies,
    /// A dependency that the package needs does not stand there exactly once.
    Dependency(String),
    EmptyCoordinate,
    /// A coordinate that says more than a name and a version.
    Qualified(String),
    /// A coordinate that so many packages fit.
    Unresolved(String, usize),
}

/// Why a lock cannot be cut down, its texts as sequences.
pub ghost enum LockFault {
    NoRoot,
    NoDependencies,
    Dependency(Seq<char>),
    EmptyCoordinate,
    Qualified(Seq<char>),
    Unresolved(Seq<char>, nat),
}

impl LockError {
    pub open spec fn fault(self) -> LockFault {
        match self {
            LockError::NoRoot => LockFault::NoRoot,
            LockError::NoDependencies => LockFault::NoDependencies,
            LockError::Dependency(name) => LockFault::Dependency(name@),
            LockError::EmptyCoordinate => LockFault::EmptyCoordinate,
            LockError::Qualified(text) => LockFault::Qualified(text@),
            LockError::Unresolved(text, n) => LockFault::Unresolved(text@, n as nat),
        }
    }
}

/// Whether a package fits a coordinate: the name, and the version where one is
/// given.
pub open spec fn fits(p: LockEntry, name: Seq<char>, version: Option<Seq<char>>) -> bool {
    p.name == name && (version is Some ==> p.version == version->Some_0)
}

/// How many of the first packages fit a coordinate.
pub open spec fn fitting(
    list: Seq<LockEntry>,
    name: Seq<char>,
    version: Option<Seq<char>>,
) -> nat
    decreases list.len(),
{
    if list.len() == 0 {
        0
    } else {
        fitting(list.drop_last(), name, version) + if fits(list.last(), name, version) {
            1nat
        } else {
            0nat
        }
    }
}

/// The last package that fits a coordinate, or -1.
pub open spec fn last_fitting(
    list: Seq<LockEntry>,
    name: Seq<char>,
    version: Option<Seq<char>>,
) -> int
    decreases list.len(),
{
    if list.len() == 0 {
        -1
    } else if fits(list.last(), name, version) {
        list.len() - 1
    } else {
        last_fitting(list.drop_last(), name, version)
    }
}

/// The package that a coordinate names.
pub open spec fn resolved(list: Seq<LockEntry>, coordinate: Seq<char>) -> Result<int, LockFault> {
    let parts = words(coordinate);
    if parts.len() == 0 {
        Err(LockFault::EmptyCoordinate)
    } else if parts.len() > 2 {
        Err(LockFault::Qualified(coordinate))
    } else {
        let version = if parts.len() == 2 {
            Some(parts[1])
        } else {
            None
        };
        if fitting(list, parts[0], version) == 1 {
            Ok(last_fitting(list, parts[0], version))
        } else {
            Err(LockFault::Unresolved(coordinate, fitting(list, parts[0], version)))
        }
    }
}

/// The packages that coordinates name, or what is wrong with the first that
/// names none.
pub open spec fn targets(list: Seq<LockEntry>, coordinates: Seq<Seq<char>>) -> Result<
    Seq<int>,
    LockFault,
>
    decreases coordinates.len(),
{
    if coordinates.len() == 0 {
        Ok(Seq::empty())
    } else {
        match targets(list, coordinates.drop_last()) {
            Err(fault) => Err(fault),
            Ok(before) => match resolved(list, coordinates.last()) {
                Err(fault) => Err(fault),
                Ok(i) => Ok(before.push(i)),
            },
        }
    }
}

/// The packages that a package depends on.
pub open spec fn needs(list: Seq<LockEntry>, i: int) -> Result<Seq<int>, LockFault> {
    match list[i].dependencies {
        None => Ok(Seq::empty()),
        Some(coordinates) => targets(list, coordinates),
    }
}

/// Whether all packages named are in the lock.
pub open spec fn inside(list: Seq<LockEntry>, seen: Set<int>, pending: Seq<int>) -> bool {
    &&& seen.finite()
    &&& forall|i: int| seen.contains(i) ==> 0 <= i < list.len()
    &&& forall|k: int| 0 <= k < pending.len() ==> 0 <= #[trigger] pending[k] < list.len()
}

/// The packages that are seen from some others on, those that are still to be
/// looked at taken from the end; or the first thing that is wrong with one.
pub open spec fn seen_from(list: Seq<LockEntry>, seen: Set<int>, pending: Seq<int>) -> Result<
    Set<int>,
    LockFault,
>
    decreases list.len() - seen.len(), pending.len() via seen_from_decreases
{
    if !inside(list, seen, pending) || pending.len() == 0 {
        Ok(seen)
    } else {
        let i = pending.last();
        let rest = pending.drop_last();
        if seen.contains(i) {
            seen_from(list, seen, rest)
        } else {
            match needs(list, i) {
                Err(fault) => Err(fault),
                Ok(more) => seen_from(list, seen.insert(i), rest + more),
            }
        }
    }
}

proof fn lemma_seen_room(list: Seq<LockEntry>, seen: Set<int>, pending: Seq<int>, i: int)
    requires
        inside(list, seen, pending),
        0 <= i < list.len(),
        !seen.contains(i),
    ensures
        seen.insert(i).len() == seen.len() + 1,
        seen.len() + 1 <= list.len(),
{
    let all = vstd::set_lib::set_int_range(0, list.len() as int);
    vstd::set_lib::lemma_int_range(0, list.len() as int);
    assert(seen.insert(i).subset_of(all));
    vstd::set_lib::lemma_len_subset(seen.insert(i), all);
}

#[via_fn]
proof fn seen_from_decreases(list: Seq<LockEntry>, seen: Set<int>, pending: Seq<int>) {
    if inside(list, seen, pending) && pending.len() > 0 && !seen.contains(pending.last()) {
        assert(0 <= pending[pending.len() - 1] < list.len());
        lemma_seen_room(list, seen, pending, pending.last());
    }
}

proof fn lemma_last_fitting(list: Seq<LockEntry>, name: Seq<char>, version: Option<Seq<char>>)
    ensures
        -1 <= last_fitting(list, name, version) < list.len(),
        fitting(list, name, version) > 0 ==> last_fitting(list, name, version) >= 0,
    decreases list.len(),
{
    if list.len() > 0 {
        lemma_last_fitting(list.drop_last(), name, version);
    }
}

proof fn lemma_targets(list: Seq<LockEntry>, coordinates: Seq<Seq<char>>)
    ensures
        targets(list, coordinates) matches Ok(out) ==> forall|k: int|
            0 <= k < out.len() ==> 0 <= #[trigger] out[k] < list.len(),
    decreases coordinates.len(),
{
    if coordinates.len() > 0 {
        lemma_targets(list, coordinates.drop_last());
        let parts = words(coordinates.last());
        if parts.len() == 1 {
            lemma_last_fitting(list, parts[0], None);
        } else if parts.len() == 2 {
            lemma_last_fitting(list, parts[0], Some(parts[1]));
        }
    }
}

/// Whether packages are closed: what one of them depends on is among them.
pub open spec fn closed_under(list: Seq<LockEntry>, set: Set<int>) -> bool {
    forall|i: int, k: int|
        #![trigger set.contains(i), needs(list, i)->Ok_0[k]]
        set.contains(i) && needs(list, i) is Ok && 0 <= k < needs(list, i)->Ok_0.len()
            ==> set.contains(needs(list, i)->Ok_0[k])
}

/// Whether what packages depend on is among them, or still to be looked at.
pub open spec fn covered(list: Seq<LockEntry>, seen: Set<int>, pending: Seq<int>) -> bool {
    forall|i: int, k: int|
        #![trigger seen.contains(i), needs(list, i)->Ok_0[k]]
        seen.contains(i) && 0 <= k < needs(list, i)->Ok_0.len() ==> seen.contains(
            needs(list, i)->Ok_0[k],
        ) || pending.contains(needs(list, i)->Ok_0[k])
}

proof fn lemma_seen_from(
    list: Seq<LockEntry>,
    seen: Set<int>,
    pending: Seq<int>,
    bound: Set<int>,
)
    requires
        inside(list, seen, pending),
        covered(list, seen, pending),
        forall|i: int| seen.contains(i) ==> needs(list, i) is Ok,
        closed_under(list, bound),
        seen.subset_of(bound),
        forall|k: int| 0 <= k < pending.len() ==> bound.contains(#[trigger] pending[k]),
        seen_from(list, seen, pending) is Ok,
    ensures
        ({
            let out = seen_from(list, seen, pending)->Ok_0;
            &&& seen.subset_of(out)
            &&& forall|k: int| 0 <= k < pending.len() ==> out.contains(#[trigger] pending[k])
            &&& closed_under(list, out)
            &&& forall|i: int| out.contains(i) ==> needs(list, i) is Ok
            &&& out.subset_of(bound)
            &&& forall|i: int| out.contains(i) ==> 0 <= i < list.len()
        }),
    decreases list.len() - seen.len(), pending.len(),
{
    if pending.len() == 0 {
        assert(closed_under(list, seen)) by {
            assert forall|i: int, k: int|
                #![trigger seen.contains(i), needs(list, i)->Ok_0[k]]
                seen.contains(i) && needs(list, i) is Ok && 0 <= k < needs(
                    list,
                    i,
                )->Ok_0.len() implies seen.contains(needs(list, i)->Ok_0[k]) by {
                assert(!pending.contains(needs(list, i)->Ok_0[k]));
            }
        }
    } else {
        let i = pending.last();
        let rest = pending.drop_last();
        assert(pending[pending.len() - 1] == i);
        assert forall|k: int| 0 <= k < rest.len() implies 0 <= #[trigger] rest[k] < list.len()
            && bound.contains(rest[k]) by {
            assert(rest[k] == pending[k]);
        }
        if seen.contains(i) {
            assert(covered(list, seen, rest)) by {
                assert forall|a: int, k: int|
                    #![trigger seen.contains(a), needs(list, a)->Ok_0[k]]
                    seen.contains(a) && 0 <= k < needs(list, a)->Ok_0.len() implies seen.contains(
                    needs(list, a)->Ok_0[k],
                ) || rest.contains(needs(list, a)->Ok_0[k]) by {
                    let t = needs(list, a)->Ok_0[k];
                    if !seen.contains(t) {
                        assert(pending.contains(t));
                        let m = choose|m: int| 0 <= m < pending.len() && pending[m] == t;
                        assert(rest[m] == t);
                    }
                }
            }
            lemma_seen_from(list, seen, rest, bound);
            let out = seen_from(list, seen, rest)->Ok_0;
            assert forall|k: int| 0 <= k < pending.len() implies out.contains(
                #[trigger] pending[k],
            ) by {
                if k < rest.len() {
                    assert(rest[k] == pending[k]);
                }
            }
        } else {
            let more = needs(list, i)->Ok_0;
            let next = rest + more;
            let grown = seen.insert(i);
            lemma_seen_room(list, seen, pending, i);
            match list[i].dependencies {
                Some(coordinates) => lemma_targets(list, coordinates),
                None => {},
            }
            assert forall|k: int| 0 <= k < next.len() implies 0 <= #[trigger] next[k] < list.len()
                && bound.contains(next[k]) by {
                if k < rest.len() {
                    assert(next[k] == rest[k]);
                } else {
                    assert(next[k] == more[k - rest.len()]);
                    assert(bound.contains(i));
                    assert(bound.contains(needs(list, i)->Ok_0[k - rest.len()]));
                }
            }
            assert(covered(list, grown, next)) by {
                assert forall|a: int, k: int|
                    #![trigger grown.contains(a), needs(list, a)->Ok_0[k]]
                    grown.contains(a) && 0 <= k < needs(
                        list,
                        a,
                    )->Ok_0.len() implies grown.contains(needs(list, a)->Ok_0[k]) || next.contains(
                    needs(list, a)->Ok_0[k],
                ) by {
                    let t = needs(list, a)->Ok_0[k];
                    if a == i {
                        assert(next[rest.len() + k] == t);
                    } else {
                        assert(seen.contains(a));
                        if !seen.contains(t) {
                            assert(pending.contains(t));
                            let m = choose|m: int| 0 <= m < pending.len() && pending[m] == t;
                            if m < rest.len() {
                                assert(next[m] == t);
                            } else {
                                assert(t == i);
                            }
                        }
                    }
                }
            }
            lemma_seen_from(list, grown, next, bound);
            let out = seen_from(list, grown, next)->Ok_0;
            assert(out.contains(i));
            assert forall|k: int| 0 <= k < pending.len() implies out.contains(
                #[trigger] pending[k],
            ) by {
                if k < rest.len() {
                    assert(next[k] == pending[k]);
                }
            }
        }
    }
}

/// The packages that are kept are the root, all that a kept package depends on,
/// and no others: every set that holds the root and what its packages depend on
/// holds them.
pub proof fn kept_packages_are_the_needed_ones(
    list: Seq<LockEntry>,
    root: int,
    other: Set<int>,
)
    requires
        0 <= root < list.len(),
        seen_from(list, Set::empty(), seq![root]) is Ok,
        other.contains(root),
        closed_under(list, other),
    ensures
        ({
            let kept = seen_from(list, Set::empty(), seq![root])->Ok_0;
            &&& kept.contains(root)
            &&& closed_under(list, kept)
            &&& forall|i: int| kept.contains(i) ==> needs(list, i) is Ok
            &&& kept.subset_of(other)
        }),
{
    let pending = seq![root];
    assert(pending[0] == root);
    lemma_seen_from(list, Set::empty(), pending, other);
    assert(seen_from(list, Set::empty(), pending)->Ok_0.contains(pending[0]));
}

fn fits_entry(p: &LockPackage, name: &[char], version: Option<&[char]>) -> (r: bool)
    ensures
        r == fits(
            p@,
            name@,
            match version {
                Some(v) => Some(v@),
                None => None,
            },
        ),
{
    if !eq_str_chars(p.name.as_str(), name) {
        return false;
    }
    match version {
        Some(v) => eq_str_chars(p.version.as_str(), v),
        None => true,
    }
}

fn count_fitting(list: &Vec<LockPackage>, name: &[char], version: Option<&[char]>) -> (r: (
    usize,
    usize,
))
    ensures
        ({
            let v = match version {
                Some(v) => Some(v@),
                None => None,
            };
            &&& r.0 == fitting(entries(list@), name@, v)
            &&& r.0 > 0 ==> r.1 == last_fitting(entries(list@), name@, v) && r.1 < list@.len()
        }),
{
    let ghost all = entries(list@);
    let ghost v = match version {
        Some(v) => Some(v@),
        None => None,
    };
    let mut count: usize = 0;
    let mut last: usize = 0;
    let mut i: usize = 0;
    assert(all.take(0).len() == 0);
    while i < list.len()
        invariant
            all == entries(list@),
            v == (match version {
                Some(v) => Some(v@),
                None => None,
            }),
            i <= list@.len(),
            count <= i,
            count == fitting(all.take(i as int), name@, v),
            count > 0 ==> last == last_fitting(all.take(i as int), name@, v) && last < i,
        decreases list@.len() - i,
    {
        assert(all.take(i + 1).drop_last() =~= all.take(i as int));
        assert(all.take(i + 1).last() == list@[i as int]@);
        if fits_entry(&list[i], name, version) {
            count += 1;
            last = i;
        }
        i += 1;
    }
    assert(all.take(i as int) =~= all);
    (count, last)
}

fn resolve(list: &Vec<LockPackage>, coordinate: &String) -> (r: Result<usize, LockError>)
    ensures
        match r {
            Ok(i) => resolved(entries(list@), coordinate@) == Ok::<int, LockFault>(i as int) && i
                < list@.len(),
            Err(error) => resolved(entries(list@), coordinate@) == Err::<int, LockFault>(
                error.fault(),
            ),
        },
{
    let parts = split_words(chars_of(coordinate.as_str()).as_slice());
    let ghost all = texts(parts@);
    assert(all.len() == parts@.len());
    if parts.len() == 0 {
        return Err(LockError::EmptyCoordinate);
    }
    if parts.len() > 2 {
        return Err(LockError::Qualified(coordinate.clone()));
    }
    assert(all[0] == parts@[0]@);
    let version: Option<&[char]> = if parts.len() == 2 {
        assert(all[1] == parts@[1]@);
        Some(parts[1].as_slice())
    } else {
        None
    };
    let (count, last) = count_fitting(list, parts[0].as_slice(), version);
    if count == 1 {
        Ok(last)
    } else {
        Err(LockError::Unresolved(coordinate.clone(), count))
    }
}

/// Numbers, as integers.
pub open spec fn ints(list: Seq<usize>) -> Seq<int> {
    list.map_values(|n: usize| n as int)
}

fn push_targets(list: &Vec<LockPackage>, coordinates: &Vec<String>, pending: &mut Vec<usize>) -> (r:
    Result<(), LockError>)
    ensures
        match r {
            Ok(_) => targets(entries(list@), views(coordinates@)) is Ok && ints(final(pending)@)
                == ints(old(pending)@) + targets(entries(list@), views(coordinates@))->Ok_0,
            Err(error) => targets(entries(list@), views(coordinates@)) == Err::<
                Seq<int>,
                LockFault,
            >(error.fault()),
        },
{
    let ghost all = entries(list@);
    let ghost names = views(coordinates@);
    let ghost first = ints(pending@);
    let mut i: usize = 0;
    assert(names.take(0).len() == 0);
    assert(ints(pending@) =~= first + Seq::<int>::empty());
    while i < coordinates.len()
        invariant
            all == entries(list@),
            names == views(coordinates@),
            first == ints(old(pending)@),
            i <= coordinates@.len(),
            targets(all, names.take(i as int)) is Ok,
            ints(pending@) == first + targets(all, names.take(i as int))->Ok_0,
        decreases coordinates@.len() - i,
    {
        assert(names.take(i + 1).drop_last() =~= names.take(i as int));
        assert(names.take(i + 1).last() == coordinates@[i as int]@);
        let ghost before = targets(all, names.take(i as int))->Ok_0;
        match resolve(list, &coordinates[i]) {
            Ok(k) => {
                let ghost held = ints(pending@);
                pending.push(k);
                assert(ints(pending@) =~= held.push(k as int));
                assert(held.push(k as int) =~= first + before.push(k as int));
            },
            Err(error) => {
                proof {
                    lemma_targets_fail(all, names, i + 1);
                }
                return Err(error);
            },
        }
        i += 1;
    }
    assert(names.take(i as int) =~= names);
    Ok(())
}

proof fn lemma_targets_fail(list: Seq<LockEntry>, names: Seq<Seq<char>>, i: int)
    requires
        0 <= i <= names.len(),
        targets(list, names.take(i)) is Err,
    ensures
        targets(list, names) == targets(list, names.take(i)),
    decreases names.len(),
{
    if i == names.len() {
        assert(names.take(i) =~= names);
    } else {
        assert(names.drop_last().take(i) =~= names.take(i));
        lemma_targets_fail(list, names.drop_last(), i);
    }
}

/// The packages that are marked.
pub open spec fn marked(marks: Seq<bool>) -> Set<int> {
    Set::new(|i: int| 0 <= i < marks.len() && marks[i])
}

/// Which packages of a lock a package needs, itself among them.
pub fn prune_generated_cargo_lock(list: &Vec<LockPackage>, root: usize) -> (r: Result<
    Vec<bool>,
    LockError,
>)
    requires
        root < list@.len(),
    ensures
        match r {
            Ok(marks) => marks@.len() == list@.len() && seen_from(
                entries(list@),
                Set::empty(),
                seq![root as int],
            ) == Ok::<Set<int>, LockFault>(marked(marks@)),
            Err(error) => seen_from(entries(list@), Set::empty(), seq![root as int]) == Err::<
                Set<int>,
                LockFault,
            >(error.fault()),
        },
{
    let ghost all = entries(list@);
    let n: usize = list.len();
    let mut marks: Vec<bool> = Vec::new();
    let mut j: usize = 0;
    while j < n
        invariant
            j <= n,
            marks@.len() == j,
            forall|k: int| 0 <= k < j ==> !#[trigger] marks@[k],
        decreases n - j,
    {
        marks.push(false);
        j += 1;
    }
    let mut pending: Vec<usize> = vec![root];
    let ghost mut seen: Set<int> = Set::empty();
    assert(marked(marks@) =~= seen);
    assert(ints(pending@) =~= seq![root as int]);
    while pending.len() > 0
        invariant
            n == list@.len(),
            all == entries(list@),
            all.len() == n,
            marks@.len() == n,
            seen == marked(marks@),
            inside(all, seen, ints(pending@)),
            seen_from(all, seen, ints(pending@)) == seen_from(
                all,
                Set::empty(),
                seq![root as int],
            ),
        decreases n - seen.len(), pending@.len(),
    {
        let ghost before = ints(pending@);
        let m: usize = pending.len();
        let i: usize = pending[m - 1];
        assert(before.last() == i as int);
        assert(before[m - 1] == i as int);
        pending.pop();
        assert(ints(pending@) =~= before.drop_last());
        assert forall|k: int| 0 <= k < ints(pending@).len() implies 0 <= #[trigger] ints(
            pending@,
        )[k] < all.len() by {
            assert(ints(pending@)[k] == before[k]);
        }
        if !marks[i] {
            proof {
                lemma_seen_room(all, seen, before, i as int);
            }
            let ghost held = ints(pending@);
            assert(all[i as int] == list@[i as int]@);
            match &list[i].dependencies {
                Some(coordinates) => {
                    match push_targets(list, coordinates, &mut pending) {
                        Ok(_) => {},
                        Err(error) => {
                            return Err(error);
                        },
                    }
                    proof {
                        lemma_targets(all, views(coordinates@));
                    }
                },
                None => {
                    assert(ints(pending@) =~= held + Seq::<int>::empty());
                },
            }
            let ghost old_marks = marks@;
            marks.set(i, true);
            proof {
                let more = needs(all, i as int)->Ok_0;
                assert(marked(marks@) =~= seen.insert(i as int));
                seen = seen.insert(i as int);
                assert(ints(pending@) == held + more);
                assert forall|k: int| 0 <= k < ints(pending@).len() implies 0 <= #[trigger] ints(
                    pending@,
                )[k] < all.len() by {
                    if k < held.len() {
                        assert(ints(pending@)[k] == held[k]);
                    } else {
                        assert(ints(pending@)[k] == more[k - held.len()]);
                    }
                }
            }
        }
    }
    Ok(marks)
}

/// Whether a package is the workspace's own.
pub open spec fn is_root(p: LockEntry, name: Seq<char>, version: Seq<char>) -> bool {
    p.name == name && p.version == version && p.source is None
}

/// The workspace's own package, which stands in its lock exactly once.
pub fn find_root(list: &Vec<LockPackage>, name: &str, version: &str) -> (r: Result<
    usize,
    LockError,
>)
    ensures
        match r {
            Ok(i) => i < list@.len() && is_root(list@[i as int]@, name@, version@) && forall|j: int|
                0 <= j < list@.len() && j != i ==> !is_root((#[trigger] list@[j])@, name@, version@),
            Err(error) => error is NoRoot && !(exists|i: int|
                0 <= i < list@.len() && is_root((#[trigger] list@[i])@, name@, version@) && forall|
                    j: int,
                |
                    0 <= j < list@.len() && j != i ==> !is_root(
                        (#[trigger] list@[j])@,
                        name@,
                        version@,
                    )),
        },
{
    let mut found: Option<usize> = None;
    let mut i: usize = 0;
    while i < list.len()
        invariant
            i <= list@.len(),
            match found {
                None => forall|j: int|
                    0 <= j < i ==> !is_root((#[trigger] list@[j])@, name@, version@),
                Some(f) => f < i && is_root(list@[f as int]@, name@, version@) && forall|j: int|
                    0 <= j < i && j != f ==> !is_root((#[trigger] list@[j])@, name@, version@),
            },
        decreases list@.len() - i,
    {
        let p = &list[i];
        if *p.name.as_str() == *name && *p.version.as_str() == *version && p.source.is_none() {
            match found {
                None => {
                    found = Some(i);
                },
                Some(f) => {
                    proof {
                        assert(is_root(list@[i as int]@, name@, version@));
                        assert(is_root(list@[f as int]@, name@, version@));
                    }
                    return Err(LockError::NoRoot);
                },
            }
        }
        i += 1;
    }
    match found {
        Some(f) => Ok(f),
        None => Err(LockError::NoRoot),
    }
}

/// The dependencies of every generated package.
pub open spec fn runtime_dependencies() -> Seq<Seq<char>> {
    seq![
        "anyhow"@,
        "base64"@,
        "bitflags"@,
        "clap"@,
        "ed25519-dalek"@,
        "getrandom"@,
        "hex"@,
        "libc"@,
        "num-bigint"@,
        "num-traits"@,
        "semver"@,
        "serde"@,
        "serde_json"@,
        "sha2"@,
        "thiserror"@,
        "toml"@,
        "which"@,
    ]
}

/// The dependencies of a generated package, with or without a project.
pub open spec fn needed_names(project: bool) -> Seq<Seq<char>> {
    if project {
        runtime_dependencies().push("ignore"@)
    } else {
        runtime_dependencies()
    }
}

/// The dependencies of a generated package, with or without a project.
pub fn needed(project: bool) -> (out: Vec<String>)
    ensures
        views(out@) == needed_names(project),
{
    let mut out: Vec<String> = vec![
        "anyhow".to_owned(),
        "base64".to_owned(),
        "bitflags".to_owned(),
        "clap".to_owned(),
        "ed25519-dalek".to_owned(),
        "getrandom".to_owned(),
        "hex".to_owned(),
        "libc".to_owned(),
        "num-bigint".to_owned(),
        "num-traits".to_owned(),
        "semver".to_owned(),
        "serde".to_owned(),
        "serde_json".to_owned(),
        "sha2".to_owned(),
        "thiserror".to_owned(),
        "toml".to_owned(),
        "which".to_owned(),
    ];
    assert(views(out@) =~= runtime_dependencies());
    if project {
        out.push("ignore".to_owned());
        assert(views(out@) =~= needed_names(true));
    }
    out
}

/// What a coordinate is for: all before its first blank.
pub open spec fn dependency_name(coordinate: Seq<char>) -> Seq<char> {
    coordinate.take(position_from(coordinate, 0, ' '))
}

/// How many coordinates are for a dependency.
pub open spec fn named_count(coordinates: Seq<Seq<char>>, name: Seq<char>) -> nat
    decreases coordinates.len(),
{
    if coordinates.len() == 0 {
        0
    } else {
        named_count(coordinates.drop_last(), name) + if dependency_name(coordinates.last())
            == name {
            1nat
        } else {
            0nat
        }
    }
}

/// The last coordinate that is for a dependency.
pub open spec fn named_last(coordinates: Seq<Seq<char>>, name: Seq<char>) -> Seq<char>
    decreases coordinates.len(),
{
    if coordinates.len() == 0 {
        Seq::empty()
    } else if dependency_name(coordinates.last()) == name {
        coordinates.last()
    } else {
        named_last(coordinates.drop_last(), name)
    }
}

/// The coordinates of some dependencies, or the first of these that has not
/// exactly one.
pub open spec fn picked(coordinates: Seq<Seq<char>>, names: Seq<Seq<char>>) -> Result<
    Seq<Seq<char>>,
    Seq<char>,
>
    decreases names.len(),
{
    if names.len() == 0 {
        Ok(Seq::empty())
    } else {
        match picked(coordinates, names.drop_last()) {
            Err(name) => Err(name),
            Ok(before) => if named_count(coordinates, names.last()) == 1 {
                Ok(before.push(named_last(coordinates, names.last())))
            } else {
                Err(names.last())
            },
        }
    }
}

/// Whether texts are the coordinates of some dependencies, in ascending order.
pub open spec fn are_picked(
    coordinates: Seq<Seq<char>>,
    names: Seq<Seq<char>>,
    out: Seq<Seq<char>>,
) -> bool {
    ascending(out) && exists|sorted: Seq<Seq<char>>|
        ascending(sorted) && sorted.to_set() == names.to_set() && (#[trigger] picked(
            coordinates,
            sorted,
        )) is Ok && out.to_set() == picked(coordinates, sorted)->Ok_0.to_set()
}

/// Whether a dependency is the first, in ascending order, that has not exactly
/// one coordinate.
pub open spec fn is_unpicked(
    coordinates: Seq<Seq<char>>,
    names: Seq<Seq<char>>,
    name: Seq<char>,
) -> bool {
    exists|sorted: Seq<Seq<char>>|
        ascending(sorted) && sorted.to_set() == names.to_set() && #[trigger] picked(
            coordinates,
            sorted,
        ) == Err::<Seq<Seq<char>>, Seq<char>>(name)
}

proof fn lemma_picked_fails(coordinates: Seq<Seq<char>>, names: Seq<Seq<char>>, i: int)
    requires
        0 <= i <= names.len(),
        picked(coordinates, names.take(i)) is Err,
    ensures
        picked(coordinates, names) == picked(coordinates, names.take(i)),
    decreases names.len(),
{
    if i == names.len() {
        assert(names.take(i) =~= names);
    } else {
        assert(names.drop_last().take(i) =~= names.take(i));
        lemma_picked_fails(coordinates, names.drop_last(), i);
    }
}

fn pick(coordinates: &Vec<String>, name: &String) -> (r: Option<String>)
    ensures
        match r {
            Some(text) => named_count(views(coordinates@), name@) == 1 && text@ == named_last(
                views(coordinates@),
                name@,
            ),
            None => named_count(views(coordinates@), name@) != 1,
        },
{
    let ghost all = views(coordinates@);
    let mut count: usize = 0;
    let mut last: usize = 0;
    let mut i: usize = 0;
    assert(all.take(0).len() == 0);
    while i < coordinates.len()
        invariant
            all == views(coordinates@),
            i <= coordinates@.len(),
            count <= i,
            count == named_count(all.take(i as int), name@),
            count > 0 ==> last < i && named_last(all.take(i as int), name@)
                == coordinates@[last as int]@,
        decreases coordinates@.len() - i,
    {
        assert(all.take(i + 1).drop_last() =~= all.take(i as int));
        assert(all.take(i + 1).last() == coordinates@[i as int]@);
        let chars = chars_of(coordinates[i].as_str());
        let k: usize = find_char(chars.as_slice(), 0, ' ');
        let head = vstd::slice::slice_subrange(chars.as_slice(), 0, k);
        assert(head@ =~= dependency_name(coordinates@[i as int]@));
        if eq_str_chars(name.as_str(), head) {
            count += 1;
            last = i;
        }
        i += 1;
    }
    assert(all.take(i as int) =~= all);
    if count == 1 {
        Some(coordinates[last].clone())
    } else {
        None
    }
}

/// The coordinates of some dependencies, in ascending order; the names are taken
/// in ascending order too.
pub fn generated_dependencies(coordinates: &Vec<String>, names: &Vec<String>) -> (r: Result<
    Vec<String>,
    LockError,
>)
    ensures
        match r {
            Ok(out) => are_picked(views(coordinates@), views(names@), views(out@)),
            Err(LockError::Dependency(name)) => is_unpicked(
                views(coordinates@),
                views(names@),
                name@,
            ),
            Err(_) => false,
        },
{
    let sorted = crate::collect::in_name_order(names.as_slice());
    let ghost all = views(coordinates@);
    let ghost list = views(sorted@);
    let mut out: Vec<String> = Vec::new();
    let mut i: usize = 0;
    assert(list.take(0).len() == 0);
    assert(members(out@) =~= Seq::<Seq<char>>::empty().to_set());
    while i < sorted.len()
        invariant
            all == views(coordinates@),
            list == views(sorted@),
            ascending(list),
            list.to_set() == views(names@).to_set(),
            i <= sorted@.len(),
            picked(all, list.take(i as int)) is Ok,
            ascending(views(out@)),
            members(out@) == picked(all, list.take(i as int))->Ok_0.to_set(),
        decreases sorted@.len() - i,
    {
        assert(list.take(i + 1).drop_last() =~= list.take(i as int));
        assert(list.take(i + 1).last() == sorted@[i as int]@);
        let ghost before = picked(all, list.take(i as int))->Ok_0;
        match pick(coordinates, &sorted[i]) {
            Some(text) => {
                let ghost chosen = text@;
                insert_ascending(&mut out, text);
                proof {
                    assert forall|t: Seq<char>| members(out@).contains(t) == before.push(
                        chosen,
                    ).to_set().contains(t) by {
                        if before.contains(t) {
                            let k = choose|k: int| 0 <= k < before.len() && before[k] == t;
                            assert(before.push(chosen)[k] == t);
                        }
                        if before.push(chosen).contains(t) {
                            let k = choose|k: int|
                                0 <= k < before.push(chosen).len() && before.push(chosen)[k] == t;
                            if k < before.len() {
                                assert(before[k] == t);
                            }
                        }
                        assert(before.push(chosen)[before.len() as int] == chosen);
                    }
                    assert(members(out@) =~= before.push(chosen).to_set());
                }
            },
            None => {
                proof {
                    lemma_picked_fails(all, list, i + 1);
                    assert(picked(all, list) == Err::<Seq<Seq<char>>, Seq<char>>(
                        sorted@[i as int]@,
                    ));
                }
                return Err(LockError::Dependency(sorted[i].clone()));
            },
        }
        i += 1;
    }
    assert(list.take(i as int) =~= list);
    assert(picked(all, list) is Ok);
    Ok(out)
}

/// The packages that are kept, in their order.
pub open spec fn retained(list: Seq<LockEntry>, kept: Set<int>) -> Seq<LockEntry>
    decreases list.len(),
{
    if list.len() == 0 {
        list
    } else {
        let before = retained(list.drop_last(), kept);
        if kept.contains(list.len() - 1) {
            before.push(list.last())
        } else {
            before
        }
    }
}

/// The entry of a generated package.
pub open spec fn generated_entry(dependencies: Seq<Seq<char>>) -> LockEntry {
    LockEntry {
        name: GENERATED_PACKAGE_NAME@,
        version: GENERATED_PACKAGE_VERSION@,
        source: None,
        checksum: None,
        dependencies: Some(dependencies),
    }
}

fn copy_list(list: &Vec<String>) -> (out: Vec<String>)
    ensures
        views(out@) == views(list@),
{
    let mut out: Vec<String> = Vec::new();
    let mut i: usize = 0;
    assert(views(out@) =~= views(list@).take(0));
    while i < list.len()
        invariant
            i <= list@.len(),
            views(out@) == views(list@).take(i as int),
        decreases list@.len() - i,
    {
        let ghost before = views(out@);
        out.push(list[i].clone());
        assert(views(out@) =~= before.push(list@[i as int]@));
        assert(views(list@).take(i + 1) =~= views(list@).take(i as int).push(list@[i as int]@));
        i += 1;
    }
    assert(views(list@).take(i as int) =~= views(list@));
    out
}

fn copy_package(p: &LockPackage) -> (out: LockPackage)
    ensures
        out@ == p@,
{
    LockPackage {
        name: p.name.clone(),
        version: p.version.clone(),
        source: copied(&p.source),
        checksum: copied(&p.checksum),
        dependencies: match &p.dependencies {
            Some(list) => Some(copy_list(list)),
            None => None,
        },
    }
}

fn retain(list: &Vec<LockPackage>, marks: &Vec<bool>) -> (out: Vec<LockPackage>)
    requires
        marks@.len() == list@.len(),
    ensures
        entries(out@) == retained(entries(list@), marked(marks@)),
{
    let ghost all = entries(list@);
    let ghost kept = marked(marks@);
    let mut out: Vec<LockPackage> = Vec::new();
    let mut i: usize = 0;
    assert(entries(out@) =~= retained(all.take(0), kept));
    while i < list.len()
        invariant
            marks@.len() == list@.len(),
            all == entries(list@),
            kept == marked(marks@),
            i <= list@.len(),
            entries(out@) == retained(all.take(i as int), kept),
        decreases list@.len() - i,
    {
        assert(all.take(i + 1).drop_last() =~= all.take(i as int));
        assert(all.take(i + 1).last() == list@[i as int]@);
        if marks[i] {
            let ghost before = entries(out@);
            out.push(copy_package(&list[i]));
            assert(entries(out@) =~= before.push(list@[i as int]@));
        }
        i += 1;
    }
    assert(all.take(i as int) =~= all);
    out
}

/// The workspace's lock with the generated package in place of the workspace's
/// own.
pub open spec fn projected(
    list: Seq<LockEntry>,
    root: int,
    dependencies: Seq<Seq<char>>,
) -> Seq<LockEntry> {
    list.update(root, generated_entry(dependencies))
}

/// Whether a lock is what is left of a workspace's lock for a generated package:
/// the package in place of the workspace's own, with its dependencies in
/// ascending order, and what it needs.
pub open spec fn is_cut_down(
    out: Seq<LockEntry>,
    list: Seq<LockEntry>,
    root: int,
    dependencies: Seq<Seq<char>>,
) -> bool {
    let whole = projected(list, root, dependencies);
    seen_from(whole, Set::empty(), seq![root]) matches Ok(kept) && out == retained(whole, kept)
}

fn cut_down(packages: Vec<LockPackage>, root: usize, dependencies: Vec<String>) -> (r:
    Result<Vec<LockPackage>, LockError>)
    requires
        root < packages@.len(),
    ensures
        match r {
            Ok(out) => is_cut_down(
                entries(out@),
                entries(packages@),
                root as int,
                views(dependencies@),
            ),
            Err(error) => seen_from(
                projected(entries(packages@), root as int, views(dependencies@)),
                Set::empty(),
                seq![root as int],
            ) == Err::<Set<int>, LockFault>(error.fault()),
        },
{
    let ghost all = entries(packages@);
    let ghost names = views(dependencies@);
    let mut list = packages;
    list.set(
        root,
        LockPackage {
            name: GENERATED_PACKAGE_NAME.to_owned(),
            version: GENERATED_PACKAGE_VERSION.to_owned(),
            source: None,
            checksum: None,
            dependencies: Some(dependencies),
        },
    );
    assert(entries(list@) =~= projected(all, root as int, names));
    match prune_generated_cargo_lock(&list, root) {
        Ok(marks) => Ok(retain(&list, &marks)),
        Err(error) => Err(error),
    }
}

/// The lines in front of a generated package's lock.
pub const LOCK_HEAD: &'static str = "# This file is @generated by olangc from the Ostadix workspace lock.\n# It is not intended for manual editing.\n";

/// A lock as it is written, by the text of what it holds.
pub fn lock_text(held: &str) -> (out: String)
    ensures
        out@ == LOCK_HEAD@ + held@,
{
    LOCK_HEAD.to_owned().concat(held)
}

/// Whether a package is the workspace's own, and no other is.
pub open spec fn is_only_root(
    list: Seq<LockEntry>,
    root: int,
    name: Seq<char>,
    version: Seq<char>,
) -> bool {
    &&& 0 <= root < list.len()
    &&& is_root(list[root], name, version)
    &&& forall|j: int| 0 <= j < list.len() && j != root ==> !is_root(#[trigger] list[j], name, version)
}

/// Cuts a workspace's lock down for a generated package, by the name and the
/// version of the workspace's own package.
pub fn generate_cargo_lock(
    packages: Vec<LockPackage>,
    name: &str,
    version: &str,
    include_project: bool,
) -> (r: Result<Vec<LockPackage>, LockError>)
    ensures
        match r {
            Ok(out) => exists|root: int, dependencies: Seq<Seq<char>>|
                is_only_root(entries(packages@), root, name@, version@) && entries(
                    packages@,
                )[root].dependencies is Some && are_picked(
                    entries(packages@)[root].dependencies->Some_0,
                    needed_names(include_project),
                    dependencies,
                ) && #[trigger] is_cut_down(
                    entries(out@),
                    entries(packages@),
                    root,
                    dependencies,
                ),
            Err(LockError::NoRoot) => forall|root: int|
                !#[trigger] is_only_root(entries(packages@), root, name@, version@),
            Err(LockError::NoDependencies) => exists|root: int| #[trigger]
                is_only_root(entries(packages@), root, name@, version@) && entries(
                    packages@,
                )[root].dependencies is None,
            Err(LockError::Dependency(missing)) => exists|root: int| #[trigger]
                is_only_root(entries(packages@), root, name@, version@) && entries(
                    packages@,
                )[root].dependencies is Some && is_unpicked(
                    entries(packages@)[root].dependencies->Some_0,
                    needed_names(include_project),
                    missing@,
                ),
            Err(error) => exists|root: int, dependencies: Seq<Seq<char>>|
                is_only_root(entries(packages@), root, name@, version@) && entries(
                    packages@,
                )[root].dependencies is Some && are_picked(
                    entries(packages@)[root].dependencies->Some_0,
                    needed_names(include_project),
                    dependencies,
                ) && seen_from(
                    #[trigger] projected(entries(packages@), root, dependencies),
                    Set::empty(),
                    seq![root],
                ) == Err::<Set<int>, LockFault>(error.fault()),
        },
{
    let ghost all = entries(packages@);
    assert(forall|j: int| 0 <= j < packages@.len() ==> #[trigger] all[j] == packages@[j]@);
    let root: usize = match find_root(&packages, name, version) {
        Ok(root) => {
            assert(is_only_root(all, root as int, name@, version@));
            root
        },
        Err(_) => {
            proof {
                assert forall|root: int| !#[trigger] is_only_root(all, root, name@, version@) by {
                    if is_only_root(all, root, name@, version@) {
                        assert(is_root(packages@[root]@, name@, version@));
                        assert forall|j: int|
                            0 <= j < packages@.len() && j != root implies !is_root(
                            (#[trigger] packages@[j])@,
                            name@,
                            version@,
                        ) by {
                            assert(all[j] == packages@[j]@);
                        }
                    }
                }
            }
            return Err(LockError::NoRoot);
        },
    };
    let names = needed(include_project);
    let dependencies = match &packages[root].dependencies {
        None => {
            return Err(LockError::NoDependencies);
        },
        Some(coordinates) => match generated_dependencies(coordinates, &names) {
            Ok(list) => list,
            Err(error) => {
                return Err(error);
            },
        },
    };
    let ghost chosen = views(dependencies@);
    assert(are_picked(
        all[root as int].dependencies->Some_0,
        needed_names(include_project),
        chosen,
    ));
    match cut_down(packages, root, dependencies) {
        Ok(out) => {
            assert(is_cut_down(entries(out@), all, root as int, chosen));
            Ok(out)
        },
        Err(error) => {
            proof {
                lemma_cut_down_faults(projected(all, root as int, chosen), Set::empty(), seq![
                    root as int,
                ]);
            }
            Err(error)
        },
    }
}

proof fn lemma_cut_down_faults(list: Seq<LockEntry>, seen: Set<int>, pending: Seq<int>)
    ensures
        seen_from(list, seen, pending) matches Err(fault) ==> fault is EmptyCoordinate || fault
            is Qualified || fault is Unresolved,
    decreases list.len() - seen.len(), pending.len(),
{
    if inside(list, seen, pending) && pending.len() > 0 {
        let i = pending.last();
        let rest = pending.drop_last();
        assert(0 <= pending[pending.len() - 1] < list.len());
        if seen.contains(i) {
            lemma_cut_down_faults(list, seen, rest);
        } else {
            lemma_seen_room(list, seen, pending, i);
            match list[i].dependencies {
                Some(coordinates) => lemma_target_faults(list, coordinates),
                None => {},
            }
            match needs(list, i) {
                Ok(more) => {
                    lemma_cut_down_faults(list, seen.insert(i), rest + more);
                },
                Err(_) => {},
            }
        }
    }
}

proof fn lemma_target_faults(list: Seq<LockEntry>, coordinates: Seq<Seq<char>>)
    ensures
        targets(list, coordinates) matches Err(fault) ==> fault is EmptyCoordinate || fault
            is Qualified || fault is Unresolved,
    decreases coordinates.len(),
{
    if coordinates.len() > 0 {
        lemma_target_faults(list, coordinates.drop_last());
    }
}

impl LockError {
    pub open spec fn text(self) -> Seq<char> {
        match self {
            LockError::NoRoot => "workspace Cargo.lock must contain exactly one local package entry"@,
            LockError::NoDependencies => "workspace Cargo.lock local package has no dependency list"@,
            LockError::Dependency(name) => "workspace Cargo.lock must contain exactly one direct `"@
                + name@ + "` coordinate for generated runtimes"@,
            LockError::EmptyCoordinate => "generated Cargo.lock contains an empty dependency coordinate"@,
            LockError::Qualified(text) => "generated Cargo.lock dependency coordinate `"@ + text@
                + "` has an unsupported source qualifier"@,
            LockError::Unresolved(text, n) => "generated Cargo.lock dependency `"@ + text@
                + "` resolves to "@ + decimal(n as nat) + " package entries"@,
        }
    }

    /// The message.
    pub fn to_text(&self) -> (out: String)
        ensures
            out@ == self.text(),
    {
        match self {
            LockError::NoRoot => "workspace Cargo.lock must contain exactly one local package entry".to_owned(),
            LockError::NoDependencies => "workspace Cargo.lock local package has no dependency list".to_owned(),
            LockError::Dependency(name) => {
                let mut out = "workspace Cargo.lock must contain exactly one direct `".to_owned();
                out.append(name.as_str());
                out.append("` coordinate for generated runtimes");
                out
            },
            LockError::EmptyCoordinate => "generated Cargo.lock contains an empty dependency coordinate".to_owned(),
            LockError::Qualified(text) => {
                let mut out = "generated Cargo.lock dependency coordinate `".to_owned();
                out.append(text.as_str());
                out.append("` has an unsupported source qualifier");
                out
            },
            LockError::Unresolved(text, n) => {
                let mut out = "generated Cargo.lock dependency `".to_owned();
                out.append(text.as_str());
                out.append("` resolves to ");
                push_decimal(&mut out, *n as u64);
                out.append(" package entries");
                out
            },
        }
    }
}

} // verus!
