//! CPU lists, as the kernel writes them: numbers and ranges between commas.

use vstd::prelude::*;
use vstd::slice::slice_subrange;

use crate::text::{
    chars_of, decimal, decimal_spells, find_char, first_where, is_ascii_digit, is_space,
    lemma_first_where, lemma_position_is, parse_bounded, position_from, push_decimal, separators,
    split, split_by, string_of, texts, trim, trim_slice, unsigned,
};

verus! {

/// Whether numbers are listed in ascending order, each once.
pub open spec fn ascending(list: Seq<u32>) -> bool {
    forall|i: int, j: int| 0 <= i < j < list.len() ==> (#[trigger] list[i]) < (#[trigger] list[j])
}

/// Ascending lists of the same numbers are the same.
pub proof fn ascending_lists_are_unique(a: Seq<u32>, b: Seq<u32>)
    requires
        ascending(a),
        ascending(b),
        a.to_set() == b.to_set(),
    ensures
        a == b,
    decreases a.len(),
{
    if a.len() == 0 {
        if b.len() > 0 {
            assert(b.to_set().contains(b[0]));
            assert(a.to_set().contains(b[0]));
        }
        assert(a =~= b);
    } else {
        assert(a.to_set().contains(a.last()));
        assert(b.to_set().contains(a.last()));
        assert(b.len() > 0);
        assert(b.to_set().contains(b.last()));
        assert(a.to_set().contains(b.last()));
        let i = choose|i: int| 0 <= i < a.len() && a[i] == b.last();
        let j = choose|j: int| 0 <= j < b.len() && b[j] == a.last();
        if i < a.len() - 1 {
            assert(a[i] < a.last());
            if j < b.len() - 1 {
                assert(b[j] < b.last());
            }
        }
        assert(a.last() == b.last());
        let c = a.drop_last();
        let d = b.drop_last();
        assert forall|x: u32| c.to_set().contains(x) == d.to_set().contains(x) by {
            if c.contains(x) {
                let k = choose|k: int| 0 <= k < c.len() && c[k] == x;
                assert(a[k] == x);
                assert(a[k] < a.last());
                assert(a.to_set().contains(x));
                assert(b.to_set().contains(x));
                let m = choose|m: int| 0 <= m < b.len() && b[m] == x;
                assert(d[m] == x);
            }
            if d.contains(x) {
                let k = choose|k: int| 0 <= k < d.len() && d[k] == x;
                assert(b[k] == x);
                assert(b[k] < b.last());
                assert(b.to_set().contains(x));
                assert(a.to_set().contains(x));
                let m = choose|m: int| 0 <= m < a.len() && a[m] == x;
                assert(c[m] == x);
            }
        }
        assert(c.to_set() =~= d.to_set());
        ascending_lists_are_unique(c, d);
        assert(a =~= c.push(a.last()));
        assert(b =~= d.push(b.last()));
    }
}

/// Puts a number into its place in an ascending list, unless it is there.
pub fn insert_number(list: &mut Vec<u32>, x: u32)
    requires
        ascending(old(list)@),
    ensures
        ascending(final(list)@),
        final(list)@.to_set() == old(list)@.to_set().insert(x),
{
    let ghost before = list@;
    let mut i: usize = list.len();
    while i > 0 && list[i - 1] >= x
        invariant
            list@ == before,
            ascending(before),
            i <= list@.len(),
            forall|j: int| i <= j < before.len() ==> (#[trigger] before[j]) >= x,
        decreases i,
    {
        i -= 1;
    }
    if i < list.len() && list[i] == x {
        proof {
            assert(before.contains(x));
            assert(list@.to_set() =~= list@.to_set().insert(x));
        }
        return;
    }
    list.insert(i, x);
    proof {
        let after = list@;
        assert(after =~= before.insert(i as int, x));
        assert forall|a: int, b: int| 0 <= a < b < after.len() implies (#[trigger] after[a]) < (
        #[trigger] after[b]) by {
            let p = if a < i { a } else { a - 1 };
            let q = if b < i { b } else { b - 1 };
            if a != i {
                assert(after[a] == before[p]);
            }
            if b != i {
                assert(after[b] == before[q]);
            }
            if a == i && q > i {
                assert(before[i as int] < before[q]);
            }
            if b == i && p < i - 1 {
                assert(before[p] < before[i - 1]);
            }
        }
        assert forall|t: u32| after.to_set().contains(t) == before.to_set().insert(x).contains(t) by {
            if after.contains(t) {
                let a = choose|a: int| 0 <= a < after.len() && after[a] == t;
                if a < i {
                    assert(before[a] == t);
                } else if a > i {
                    assert(before[a - 1] == t);
                }
            }
            if before.contains(t) {
                let a = choose|a: int| 0 <= a < before.len() && before[a] == t;
                if a < i {
                    assert(after[a] == t);
                } else {
                    assert(after[a + 1] == t);
                }
            }
            assert(after[i as int] == x);
        }
        assert(after.to_set() =~= before.to_set().insert(x));
    }
}

/// The numbers of a list, in ascending order, each once.
pub fn in_order(numbers: &[u32]) -> (out: Vec<u32>)
    ensures
        ascending(out@),
        out@.to_set() == numbers@.to_set(),
{
    let mut out: Vec<u32> = Vec::new();
    let mut i: usize = 0;
    assert(out@.to_set() =~= numbers@.take(0).to_set());
    while i < numbers.len()
        invariant
            i <= numbers@.len(),
            ascending(out@),
            out@.to_set() == numbers@.take(i as int).to_set(),
        decreases numbers@.len() - i,
    {
        insert_number(&mut out, numbers[i]);
        proof {
            let a = numbers@.take(i + 1);
            let b = numbers@.take(i as int);
            assert(a =~= b.push(numbers@[i as int]));
            b.lemma_push_to_set_commute(numbers@[i as int]);
        }
        i += 1;
    }
    assert(numbers@.take(i as int) =~= numbers@);
    out
}

/// What is wrong with a CPU list.
#[derive(Debug)]
pub enum CpuListError {
    /// An end of a range is no number.
    InvalidRange,
    /// A component is no number.
    InvalidNumber,
    /// A range runs backwards or is too long.
    BadRange { component: String },
}

/// What is wrong with a CPU list, as a value.
pub ghost enum CpuListProblem {
    InvalidRange,
    InvalidNumber,
    BadRange(Seq<char>),
}

impl View for CpuListError {
    type V = CpuListProblem;

    open spec fn view(&self) -> CpuListProblem {
        match *self {
            CpuListError::InvalidRange => CpuListProblem::InvalidRange,
            CpuListError::InvalidNumber => CpuListProblem::InvalidNumber,
            CpuListError::BadRange { component } => CpuListProblem::BadRange(component@),
        }
    }
}

/// A CPU number.
pub open spec fn cpu_number(s: Seq<char>) -> Option<u32> {
    match unsigned(trim(s)) {
        Some(n) => if n <= u32::MAX {
            Some(n as u32)
        } else {
            None
        },
        None => None,
    }
}

/// The numbers from `start` to `end`.
pub open spec fn number_range(start: u32, end: u32) -> Set<u32> {
    Set::new(|x: u32| start <= x <= end)
}

/// The CPUs that one component names.
pub open spec fn component_cpus(c: Seq<char>) -> Result<Set<u32>, CpuListProblem> {
    let dash = position_from(c, 0, '-');
    if dash < c.len() {
        match (cpu_number(c.take(dash)), cpu_number(c.skip(dash + 1))) {
            (Some(start), Some(end)) => if start > end || end - start > 4096 {
                Err(CpuListProblem::BadRange(c))
            } else {
                Ok(number_range(start, end))
            },
            _ => Err(CpuListProblem::InvalidRange),
        }
    } else {
        match cpu_number(c) {
            Some(n) => Ok(set![n]),
            None => Err(CpuListProblem::InvalidNumber),
        }
    }
}

/// The CPUs that components name; empty components name none.
pub open spec fn components_cpus(list: Seq<Seq<char>>) -> Result<Set<u32>, CpuListProblem>
    decreases list.len(),
{
    if list.len() == 0 {
        Ok(Set::empty())
    } else {
        match components_cpus(list.drop_last()) {
            Err(problem) => Err(problem),
            Ok(set) => if list.last().len() == 0 {
                Ok(set)
            } else {
                match component_cpus(list.last()) {
                    Ok(more) => Ok(set.union(more)),
                    Err(problem) => Err(problem),
                }
            },
        }
    }
}

/// The components of a CPU list.
pub open spec fn components(value: Seq<char>) -> Seq<Seq<char>> {
    split_by(trim(value), separators(seq![','], false))
}

/// The CPUs that a list names.
pub open spec fn listed_cpus(value: Seq<char>) -> Result<Set<u32>, CpuListProblem> {
    components_cpus(components(value))
}

fn parse_number(s: &[char]) -> (r: Option<u32>)
    ensures
        r == cpu_number(s@),
{
    match parse_bounded(trim_slice(s), u32::MAX as u64) {
        Some(n) => Some(n as u32),
        None => None,
    }
}

proof fn lemma_components_fail(list: Seq<Seq<char>>, k: int)
    requires
        0 <= k <= list.len(),
        components_cpus(list.take(k)) is Err,
    ensures
        components_cpus(list) == components_cpus(list.take(k)),
    decreases list.len() - k,
{
    if k == list.len() {
        assert(list.take(k) =~= list);
    } else {
        assert(list.take(k + 1).drop_last() =~= list.take(k));
        lemma_components_fail(list, k + 1);
    }
}

/// Adds the CPUs that one component names.
fn add_component(cpus: &mut Vec<u32>, c: &[char]) -> (r: Result<(), CpuListError>)
    requires
        ascending(old(cpus)@),
    ensures
        ascending(final(cpus)@),
        match r {
            Ok(_) => component_cpus(c@) is Ok && final(cpus)@.to_set() == old(cpus)@.to_set().union(
                component_cpus(c@)->Ok_0,
            ),
            Err(error) => component_cpus(c@) == Err::<Set<u32>, CpuListProblem>(error@),
        },
{
    let ghost before = cpus@.to_set();
    let dash = find_char(c, 0, '-');
    if dash < c.len() {
        let left = slice_subrange(c, 0, dash);
        let right = slice_subrange(c, dash + 1, c.len());
        assert(left@ =~= c@.take(dash as int));
        assert(right@ =~= c@.skip(dash + 1));
        let (start, end) = match (parse_number(left), parse_number(right)) {
            (Some(start), Some(end)) => (start, end),
            _ => {
                return Err(CpuListError::InvalidRange);
            },
        };
        if start > end || end - start > 4096 {
            let component = string_of(c, 0, c.len());
            assert(component@ =~= c@);
            return Err(CpuListError::BadRange { component });
        }
        let mut x: u32 = start;
        insert_number(cpus, x);
        assert(cpus@.to_set() =~= before.union(number_range(start, x)));
        while x < end
            invariant
                start <= x <= end,
                ascending(cpus@),
                cpus@.to_set() == before.union(number_range(start, x)),
            decreases end - x,
        {
            x += 1;
            insert_number(cpus, x);
            assert(cpus@.to_set() =~= before.union(number_range(start, x)));
        }
        Ok(())
    } else {
        match parse_number(c) {
            Some(n) => {
                insert_number(cpus, n);
                assert(cpus@.to_set() =~= before.union(set![n]));
                Ok(())
            },
            None => Err(CpuListError::InvalidNumber),
        }
    }
}

/// The CPUs that a list names, in ascending order.
pub fn parse_cpu_list(value: &str) -> (r: Result<Vec<u32>, CpuListError>)
    ensures
        match r {
            Ok(cpus) => ascending(cpus@) && listed_cpus(value@) == Ok::<Set<u32>, CpuListProblem>(
                cpus@.to_set(),
            ),
            Err(error) => listed_cpus(value@) == Err::<Set<u32>, CpuListProblem>(error@),
        },
{
    let chars = chars_of(value);
    let comma: Vec<char> = vec![','];
    assert(comma@ =~= seq![',']);
    let parts = split(trim_slice(chars.as_slice()), comma.as_slice(), false);
    let ghost all = texts(parts@);
    assert(all.len() == parts@.len());
    let mut cpus: Vec<u32> = Vec::new();
    let mut i: usize = 0;
    assert(cpus@.to_set() =~= Set::empty());
    assert(all.take(0).len() == 0);
    while i < parts.len()
        invariant
            i <= parts@.len(),
            all == texts(parts@),
            all.len() == parts@.len(),
            all == components(value@),
            ascending(cpus@),
            components_cpus(all.take(i as int)) == Ok::<Set<u32>, CpuListProblem>(cpus@.to_set()),
        decreases parts@.len() - i,
    {
        proof {
            assert(all.take(i + 1).drop_last() =~= all.take(i as int));
            assert(all.take(i + 1).last() == parts@[i as int]@);
        }
        if parts[i].len() > 0 {
            if let Err(error) = add_component(&mut cpus, parts[i].as_slice()) {
                proof {
                    lemma_components_fail(all, i + 1);
                }
                return Err(error);
            }
        }
        i += 1;
    }
    assert(all.take(i as int) =~= all);
    Ok(cpus)
}

/// End of the run of consecutive numbers that starts at `i`.
pub open spec fn run_end(list: Seq<u32>, i: int) -> int
    decreases list.len() - i,
{
    if 0 <= i && i + 1 < list.len() && list[i + 1] == list[i] + 1 {
        run_end(list, i + 1)
    } else {
        i + 1
    }
}

/// One number, or a range from the first to the last.
pub open spec fn run_text(start: u32, end: u32) -> Seq<char> {
    if start == end {
        decimal(start as nat)
    } else {
        decimal(start as nat) + seq!['-'] + decimal(end as nat)
    }
}

/// Numbers from `i` on, runs of them as ranges, with commas between.
pub open spec fn ranges_text(list: Seq<u32>, i: int) -> Seq<char>
    decreases list.len() - i via ranges_decreases
{
    if i < 0 || i >= list.len() {
        Seq::empty()
    } else {
        let end = run_end(list, i);
        let run = run_text(list[i], list[end - 1]);
        if end < list.len() {
            run + seq![','] + ranges_text(list, end)
        } else {
            run
        }
    }
}

#[via_fn]
proof fn ranges_decreases(list: Seq<u32>, i: int) {
    if 0 <= i < list.len() {
        lemma_run_end(list, i);
    }
}

proof fn lemma_run_end(list: Seq<u32>, i: int)
    requires
        0 <= i < list.len(),
    ensures
        i < run_end(list, i) <= list.len(),
        forall|k: int| i <= k < run_end(list, i) ==> #[trigger] list[k] == list[i] + (k - i),
    decreases list.len() - i,
{
    if i + 1 < list.len() && list[i + 1] == list[i] + 1 {
        lemma_run_end(list, i + 1);
        assert forall|k: int| i <= k < run_end(list, i) implies #[trigger] list[k] == list[i] + (k - i) by {
            if k > i {
                assert(list[k] == list[i + 1] + (k - (i + 1)));
            }
        }
    }
}

/// The CPUs of an ascending list, runs of them as ranges.
fn format_ascending(list: &[u32]) -> (out: String)
    ensures
        out@ == ranges_text(list@, 0),
{
    let mut out = String::new();
    let mut i: usize = 0;
    assert(out@ + ranges_text(list@, 0) =~= ranges_text(list@, 0));
    while i < list.len()
        invariant
            i <= list@.len(),
            out@ + ranges_text(list@, i as int) == ranges_text(list@, 0),
        decreases list@.len() - i,
    {
        let ghost before = out@;
        let start: usize = i;
        let mut end: usize = i + 1;
        while end < list.len() && list[end - 1] < u32::MAX && list[end] == list[end - 1] + 1
            invariant
                start < end <= list@.len(),
                run_end(list@, start as int) == run_end(list@, end - 1),
            decreases list@.len() - end,
        {
            end += 1;
        }
        assert(end == run_end(list@, start as int));
        push_decimal(&mut out, list[start] as u64);
        if list[start] != list[end - 1] {
            out.push('-');
            push_decimal(&mut out, list[end - 1] as u64);
        }
        assert(out@ =~= before + run_text(list@[start as int], list@[end - 1]));
        if end < list.len() {
            out.push(',');
        }
        assert(out@ + ranges_text(list@, end as int) =~= before + ranges_text(list@, start as int));
        i = end;
    }
    assert(out@ + Seq::<char>::empty() =~= out@);
    out
}

/// CPUs as a list: in ascending order, runs of them as ranges.
pub fn format_cpu_list(cpus: &[u32]) -> (out: String)
    ensures
        forall|list: Seq<u32>|
            #![trigger ascending(list)]
            ascending(list) && list.to_set() == cpus@.to_set() ==> out@ == ranges_text(list, 0),
{
    let sorted = in_order(cpus);
    let out = format_ascending(sorted.as_slice());
    proof {
        assert forall|list: Seq<u32>|
            #![trigger ascending(list)]
            ascending(list) && list.to_set() == cpus@.to_set() implies out@ == ranges_text(list, 0) by {
            ascending_lists_are_unique(list, sorted@);
        }
    }
    out
}

/// A text of digits is its own trimmed form and spells its number.
proof fn lemma_number_text(n: u32)
    ensures
        cpu_number(decimal(n as nat)) == Some(n),
        !decimal(n as nat).contains('-'),
        !decimal(n as nat).contains(','),
        decimal(n as nat).len() > 0,
        !is_space(decimal(n as nat)[0]),
        !is_space(decimal(n as nat).last()),
{
    decimal_spells(n as nat);
    let d = decimal(n as nat);
    assert(is_ascii_digit(d[0]));
    assert(is_ascii_digit(d[d.len() - 1]));
    assert(trim(d) == d);
    assert forall|i: int| 0 <= i < d.len() implies d[i] != '-' && d[i] != ',' by {
        assert(is_ascii_digit(d[i]));
    }
}

/// One run reads back as its numbers.
proof fn lemma_run_text(start: u32, end: u32)
    requires
        start <= end,
        end - start <= 4096,
    ensures
        component_cpus(run_text(start, end)) == Ok::<Set<u32>, CpuListProblem>(
            number_range(start, end),
        ),
        !run_text(start, end).contains(','),
        run_text(start, end).len() > 0,
        !is_space(run_text(start, end)[0]),
        !is_space(run_text(start, end).last()),
{
    lemma_number_text(start);
    lemma_number_text(end);
    let a = decimal(start as nat);
    let b = decimal(end as nat);
    let c = run_text(start, end);
    if start == end {
        assert forall|j: int| 0 <= j < a.len() implies a[j] != '-' by {
            assert(a.contains(a[j]));
        }
        lemma_position_is(a, 0, '-', a.len() as int);
        assert(set![start] =~= number_range(start, end));
    } else {
        assert forall|j: int| 0 <= j < a.len() implies c[j] != '-' by {
            assert(c[j] == a[j]);
            assert(a.contains(a[j]));
        }
        assert(c[a.len() as int] == '-');
        lemma_position_is(c, 0, '-', a.len() as int);
        assert(c.take(a.len() as int) =~= a);
        assert(c.skip(a.len() as int + 1) =~= b);
        assert forall|j: int| 0 <= j < c.len() implies c[j] != ',' by {
            if j < a.len() {
                assert(a.contains(a[j]));
            } else if j > a.len() {
                assert(b.contains(b[j - a.len() - 1]));
            }
        }
    }
}

/// Splitting at a comma.
proof fn lemma_split_comma(a: Seq<char>, rest: Seq<char>)
    requires
        !a.contains(','),
    ensures
        split_by(a, separators(seq![','], false)) == seq![a],
        split_by(a + seq![','] + rest, separators(seq![','], false)) == seq![a] + split_by(
            rest,
            separators(seq![','], false),
        ),
{
    let p = separators(seq![','], false);
    assert(seq![','][0] == ',');
    assert(p(','));
    assert forall|c: char| #[trigger] p(c) implies c == ',' by {}
    lemma_first_where(a, 0, p);
    let k = first_where(a, 0, p);
    if k < a.len() {
        assert(a.contains(a[k]));
        assert(false);
    }
    let s = a + seq![','] + rest;
    lemma_first_where(s, 0, p);
    let m = first_where(s, 0, p);
    assert(s[a.len() as int] == ',');
    if m < a.len() {
        assert(s[m] == a[m]);
        assert(a.contains(a[m]));
        assert(false);
    }
    if m > a.len() {
        assert(!p(s[a.len() as int]));
        assert(false);
    }
    assert(s.take(m) =~= a);
    assert(s.skip(m + 1) =~= rest);
}

/// Reading components one by one from the front.
proof fn lemma_components_front(first: Seq<char>, rest: Seq<Seq<char>>)
    requires
        first.len() > 0,
        component_cpus(first) is Ok,
        components_cpus(rest) is Ok,
    ensures
        components_cpus(seq![first] + rest) == Ok::<Set<u32>, CpuListProblem>(
            component_cpus(first)->Ok_0.union(components_cpus(rest)->Ok_0),
        ),
    decreases rest.len(),
{
    let all = seq![first] + rest;
    let head = component_cpus(first)->Ok_0;
    if rest.len() == 0 {
        let none = Seq::<Seq<char>>::empty();
        assert(components_cpus(none) == Ok::<Set<u32>, CpuListProblem>(Set::empty()));
        assert(all.drop_last() =~= none);
        assert(rest =~= none);
        assert(all.last() == first);
        assert(Set::<u32>::empty().union(head) =~= head.union(Set::empty()));
    } else {
        lemma_components_front(first, rest.drop_last());
        assert(all.drop_last() =~= seq![first] + rest.drop_last());
        assert(all.last() == rest.last());
        let before = components_cpus(rest.drop_last())->Ok_0;
        if rest.last().len() > 0 {
            let more = component_cpus(rest.last())->Ok_0;
            assert(head.union(before).union(more) =~= head.union(before.union(more)));
        }
    }
}

/// The numbers of a list from `i` on.
pub open spec fn numbers_from(list: Seq<u32>, i: int) -> Set<u32> {
    list.skip(i).to_set()
}

/// Whether no run of consecutive numbers is too long to be read as a range.
pub open spec fn short_runs(list: Seq<u32>) -> bool {
    forall|i: int, j: int|
        0 <= i <= j < list.len() && j - i == (#[trigger] list[j]) - (#[trigger] list[i]) ==> j - i
            <= 4096
}

proof fn lemma_ranges_text(list: Seq<u32>, i: int)
    requires
        ascending(list),
        short_runs(list),
        0 <= i < list.len(),
    ensures
        components_cpus(split_by(ranges_text(list, i), separators(seq![','], false))) == Ok::<
            Set<u32>,
            CpuListProblem,
        >(numbers_from(list, i)),
        ranges_text(list, i).len() > 0,
        !is_space(ranges_text(list, i)[0]),
        !is_space(ranges_text(list, i).last()),
    decreases list.len() - i,
{
    lemma_run_end(list, i);
    let end = run_end(list, i);
    let start = list[i];
    let stop = list[end - 1];
    assert(stop == start + (end - 1 - i));
    lemma_run_text(start, stop);
    let run = run_text(start, stop);
    let rest = ranges_text(list, end);
    lemma_split_comma(run, rest);
    let here = list.skip(i);
    assert forall|x: u32| number_range(start, stop).contains(x) == (exists|k: int|
        i <= k < end && list[k] == x) by {
        if start <= x <= stop {
            let k = i + (x - start);
            assert(list[k] == x);
        }
    }
    if end < list.len() {
        lemma_ranges_text(list, end);
        lemma_components_front(run, split_by(rest, separators(seq![','], false)));
        let all = number_range(start, stop).union(numbers_from(list, end));
        assert forall|x: u32| all.contains(x) == here.to_set().contains(x) by {
            if number_range(start, stop).contains(x) {
                let k = choose|k: int| i <= k < end && list[k] == x;
                assert(here[k - i] == x);
            }
            if numbers_from(list, end).contains(x) {
                let k = choose|k: int| 0 <= k < list.skip(end).len() && list.skip(end)[k] == x;
                assert(here[k + end - i] == x);
            }
            if here.contains(x) {
                let k = choose|k: int| 0 <= k < here.len() && here[k] == x;
                if i + k < end {
                    assert(list[i + k] == x);
                } else {
                    assert(list.skip(end)[i + k - end] == x);
                    assert(list.skip(end).contains(x));
                }
            }
        }
        assert(all =~= here.to_set());
        let whole = run + seq![','] + rest;
        assert(ranges_text(list, i) == whole);
        assert(whole[0] == run[0]);
        assert(whole.last() == rest.last());
    } else {
        let none = Seq::<Seq<char>>::empty();
        lemma_components_front(run, none);
        assert(seq![run] + none =~= seq![run]);
        assert forall|x: u32| number_range(start, stop).contains(x) == here.to_set().contains(x) by {
            if number_range(start, stop).contains(x) {
                let k = choose|k: int| i <= k < end && list[k] == x;
                assert(here[k - i] == x);
            }
            if here.contains(x) {
                let k = choose|k: int| 0 <= k < here.len() && here[k] == x;
                assert(list[i + k] == x);
            }
        }
        assert(number_range(start, stop).union(Set::empty()) =~= here.to_set());
    }
}

/// A formatted CPU list reads back as its CPUs, unless a run of them is longer
/// than the reader accepts.
pub proof fn formatted_cpu_lists_read_back(list: Seq<u32>)
    requires
        ascending(list),
        short_runs(list),
    ensures
        listed_cpus(ranges_text(list, 0)) == Ok::<Set<u32>, CpuListProblem>(list.to_set()),
{
    let text = ranges_text(list, 0);
    if list.len() == 0 {
        let none = Seq::<char>::empty();
        assert(text == none);
        assert(trim(none) == none);
        assert(!none.contains(','));
        lemma_split_comma(none, none);
        assert(components(text) == seq![none]);
        let parts = Seq::<Seq<char>>::empty();
        assert(components_cpus(parts) == Ok::<Set<u32>, CpuListProblem>(Set::empty()));
        assert(seq![none].drop_last() =~= parts);
        assert(list.to_set() =~= Set::empty());
    } else {
        lemma_ranges_text(list, 0);
        assert(trim(text) == text);
        assert(list.skip(0) =~= list);
    }
}

} // verus!
