//! What holds of files: which language they are of, which are collected, and what
//! is said of those that are not.

use vstd::prelude::*;

use crate::collect::{
    generated, occurrences, reason_line, Collected, CollectedFiles, Content, Entry, EntryFate,
    Place, SkippedPath,
};
use crate::components::trimmed_path;
use crate::files::{
    backend_of, default_pairs, dependency_group_of, last_position, lemma_last_position, lookup,
    with_extension,
};
use crate::link_laws::{dotless, ending, files_are_named_by_their_stem};
use crate::outside::IgnoreVerdict;
use crate::rules::{deciding, faults, rule_lines};
use crate::text::{decimal, lines, lowered, starts_with, trim_start_text};

verus! {

/// The value of a key is that of its last pair.
pub proof fn the_last_pair_counts(pairs: Seq<(Seq<char>, Seq<char>)>, key: Seq<char>, k: int)
    ensures
        0 <= k < pairs.len() && pairs[k].0 == key && (forall|j: int|
            k < j < pairs.len() ==> (#[trigger] pairs[j]).0 != key) ==> lookup(pairs, key) == Some(
            pairs[k].1,
        ),
        (forall|j: int| 0 <= j < pairs.len() ==> (#[trigger] pairs[j]).0 != key) ==> lookup(
            pairs,
            key,
        ) is None,
    decreases pairs.len(),
{
    if pairs.len() > 0 {
        let init = pairs.drop_last();
        the_last_pair_counts(init, key, k);
        assert(pairs.last() == pairs[pairs.len() - 1]);
        assert(forall|j: int| 0 <= j < init.len() ==> #[trigger] init[j] == pairs[j]);
    }
}

/// A number for a short text: different numbers are those of different texts.
spec fn tag(s: Seq<char>) -> int {
    if s.len() == 0 {
        0
    } else {
        (s.len() as int) * 65536 + (s[0] as int) * 256 + (s.last() as int)
    }
}

spec fn tags() -> Seq<int> {
    seq![
        159865, 160616, 287336, 288876, 223341, 226424, 159076, 552302,
        160371, 225908, 224888, 226420, 156531, 90979, 156515, 222064,
        222072, 92264, 223344, 157811, 289904, 156524, 226156, 160354,
        93549, 161644, 227188, 289377, 158323, 224627, 222067, 159084,
    ]
}

/// The place of such a number among those of the built-in extensions.
spec fn place_of(n: int) -> int {
    if n == 159865 {
        0
    } else if n == 160616 {
        1
    } else if n == 287336 {
        2
    } else if n == 288876 {
        3
    } else if n == 223341 {
        4
    } else if n == 226424 {
        5
    } else if n == 159076 {
        6
    } else if n == 552302 {
        7
    } else if n == 160371 {
        8
    } else if n == 225908 {
        9
    } else if n == 224888 {
        10
    } else if n == 226420 {
        11
    } else if n == 156531 {
        12
    } else if n == 90979 {
        13
    } else if n == 156515 {
        14
    } else if n == 222064 {
        15
    } else if n == 222072 {
        16
    } else if n == 92264 {
        17
    } else if n == 223344 {
        18
    } else if n == 157811 {
        19
    } else if n == 289904 {
        20
    } else if n == 156524 {
        21
    } else if n == 226156 {
        22
    } else if n == 160354 {
        23
    } else if n == 93549 {
        24
    } else if n == 161644 {
        25
    } else if n == 227188 {
        26
    } else if n == 289377 {
        27
    } else if n == 158323 {
        28
    } else if n == 224627 {
        29
    } else if n == 222067 {
        30
    } else if n == 159084 {
        31
    } else {
        -1
    }
}

proof fn lemma_places(k: int)
    requires
        0 <= k < 32,
    ensures
        place_of(tags()[k]) == k,
{
    let list = tags();
    assert(list[0] == 159865);
    assert(list[1] == 160616);
    assert(list[2] == 287336);
    assert(list[3] == 288876);
    assert(list[4] == 223341);
    assert(list[5] == 226424);
    assert(list[6] == 159076);
    assert(list[7] == 552302);
    assert(list[8] == 160371);
    assert(list[9] == 225908);
    assert(list[10] == 224888);
    assert(list[11] == 226420);
    assert(list[12] == 156531);
    assert(list[13] == 90979);
    assert(list[14] == 156515);
    assert(list[15] == 222064);
    assert(list[16] == 222072);
    assert(list[17] == 92264);
    assert(list[18] == 223344);
    assert(list[19] == 157811);
    assert(list[20] == 289904);
    assert(list[21] == 156524);
    assert(list[22] == 226156);
    assert(list[23] == 160354);
    assert(list[24] == 93549);
    assert(list[25] == 161644);
    assert(list[26] == 227188);
    assert(list[27] == 289377);
    assert(list[28] == 158323);
    assert(list[29] == 224627);
    assert(list[30] == 222067);
    assert(list[31] == 159084);
}

proof fn lemma_keys()
    ensures
        default_pairs().len() == 32,
        forall|k: int| 0 <= k < 32 ==> tag((#[trigger] default_pairs()[k]).0) == tags()[k],
{
    reveal_strlit("py");
    reveal_strlit("sh");
    reveal_strlit("bash");
    reveal_strlit("html");
    reveal_strlit("htm");
    reveal_strlit("tex");
    reveal_strlit("md");
    reveal_strlit("markdown");
    reveal_strlit("rs");
    reveal_strlit("rkt");
    reveal_strlit("nix");
    reveal_strlit("txt");
    reveal_strlit("cs");
    reveal_strlit("c");
    reveal_strlit("cc");
    reveal_strlit("cpp");
    reveal_strlit("cxx");
    reveal_strlit("h");
    reveal_strlit("hpp");
    reveal_strlit("hs");
    reveal_strlit("lisp");
    reveal_strlit("cl");
    reveal_strlit("sql");
    reveal_strlit("rb");
    reveal_strlit("m");
    reveal_strlit("wl");
    reveal_strlit("wat");
    reveal_strlit("java");
    reveal_strlit("js");
    reveal_strlit("mjs");
    reveal_strlit("cjs");
    reveal_strlit("ml");
}

proof fn lemma_known(k: int)
    requires
        0 <= k < 32,
    ensures
        lookup(default_pairs(), default_pairs()[k].0) == Some(default_pairs()[k].1),
{
    lemma_keys();
    let pairs = default_pairs();
    assert forall|j: int| k < j < pairs.len() implies (#[trigger] pairs[j]).0 != pairs[k].0 by {
        lemma_places(j);
        lemma_places(k);
    }
    the_last_pair_counts(pairs, pairs[k].0, k);
}

/// The languages of the built-in extensions.
pub proof fn extensions_are_known()
    ensures
        lookup(default_pairs(), "py"@) == Some("python"@),
        lookup(default_pairs(), "sh"@) == Some("bash"@),
        lookup(default_pairs(), "bash"@) == Some("bash"@),
        lookup(default_pairs(), "html"@) == Some("html"@),
        lookup(default_pairs(), "htm"@) == Some("html"@),
        lookup(default_pairs(), "tex"@) == Some("latex"@),
        lookup(default_pairs(), "md"@) == Some("markdown"@),
        lookup(default_pairs(), "markdown"@) == Some("markdown"@),
        lookup(default_pairs(), "rs"@) == Some("rust"@),
        lookup(default_pairs(), "rkt"@) == Some("racket"@),
        lookup(default_pairs(), "nix"@) == Some("nix"@),
        lookup(default_pairs(), "txt"@) == Some("text"@),
        lookup(default_pairs(), "cs"@) == Some("csharp"@),
        lookup(default_pairs(), "c"@) == Some("c"@),
        lookup(default_pairs(), "cc"@) == Some("cpp"@),
        lookup(default_pairs(), "cpp"@) == Some("cpp"@),
        lookup(default_pairs(), "cxx"@) == Some("cpp"@),
        lookup(default_pairs(), "h"@) == Some("text"@),
        lookup(default_pairs(), "hpp"@) == Some("text"@),
        lookup(default_pairs(), "hs"@) == Some("haskell"@),
        lookup(default_pairs(), "lisp"@) == Some("lisp"@),
        lookup(default_pairs(), "cl"@) == Some("common_lisp"@),
        lookup(default_pairs(), "sql"@) == Some("sql"@),
        lookup(default_pairs(), "rb"@) == Some("ruby"@),
        lookup(default_pairs(), "m"@) == Some("matlab"@),
        lookup(default_pairs(), "wl"@) == Some("mathematica"@),
        lookup(default_pairs(), "wat"@) == Some("webassembly"@),
        lookup(default_pairs(), "java"@) == Some("java"@),
        lookup(default_pairs(), "js"@) == Some("javascript"@),
        lookup(default_pairs(), "mjs"@) == Some("javascript"@),
        lookup(default_pairs(), "cjs"@) == Some("javascript"@),
        lookup(default_pairs(), "ml"@) == Some("ocaml"@),
{
    lemma_known(0);
    lemma_known(1);
    lemma_known(2);
    lemma_known(3);
    lemma_known(4);
    lemma_known(5);
    lemma_known(6);
    lemma_known(7);
    lemma_known(8);
    lemma_known(9);
    lemma_known(10);
    lemma_known(11);
    lemma_known(12);
    lemma_known(13);
    lemma_known(14);
    lemma_known(15);
    lemma_known(16);
    lemma_known(17);
    lemma_known(18);
    lemma_known(19);
    lemma_known(20);
    lemma_known(21);
    lemma_known(22);
    lemma_known(23);
    lemma_known(24);
    lemma_known(25);
    lemma_known(26);
    lemma_known(27);
    lemma_known(28);
    lemma_known(29);
    lemma_known(30);
    lemma_known(31);
}

/// A file is of the language of its extension, in whatever letters that is written;
/// one with an extension that nobody knows, or with none, is text, and an O document
/// is of no language of its own.
pub proof fn files_are_of_their_extensions_language(
    p: Seq<char>,
    m: Seq<char>,
    e: Seq<char>,
    pairs: Seq<(Seq<char>, Seq<char>)>,
)
    requires
        p.len() > 0 ==> p.last() == '/',
        dotless(m),
        e.len() == 0 || ending(e),
    ensures
        e.len() == 0 ==> backend_of(p + m + e, pairs) == "text"@,
        e.len() > 0 && e.skip(1) == seq!['O'] ==> backend_of(p + m + e, pairs).len() == 0,
        e.len() > 0 && e.skip(1) != seq!['O'] ==> backend_of(p + m + e, pairs) == match lookup(
            pairs,
            lowered(e.skip(1)),
        ) {
            Some(language) => language,
            None => "text"@,
        },
{
    files_are_named_by_their_stem(p, m, e);
}

/// A path gets another extension in place of its own, or its first; all else stays.
pub proof fn extensions_are_replaced(p: Seq<char>, m: Seq<char>, e: Seq<char>, x: Seq<char>)
    requires
        p.len() > 0 ==> p.last() == '/',
        dotless(m),
        e.len() == 0 || ending(e),
    ensures
        with_extension(p + m + e, x) == p + m + "."@ + x,
{
    files_are_named_by_their_stem(p, m, e);
    let path = p + m + e;
    let n = path.len() as int;
    let last = path[n - 1];
    if e.len() > 0 {
        assert(last == e[e.len() - 1]);
    } else {
        assert(last == m[m.len() - 1]);
    }
    assert(last != '/' && last != '.');
    assert(trimmed_path(path) == path);
    lemma_last_position(path, '/');
    let at = last_position(path, '/');
    if p.len() > 0 {
        assert(path[p.len() - 1] == '/');
    }
    if at >= p.len() {
        if at < p.len() + m.len() {
            assert(path[at] == m[at - p.len()]);
        } else {
            assert(path[at] == e[at - p.len() - m.len()]);
        }
    }
    assert(at == p.len() - 1);
    assert(path.take(at + 1) =~= p);
}

/// An ignore file leaves a path out exactly where it says so and no later one says
/// anything.
pub proof fn the_last_word_decides(verdicts: Seq<IgnoreVerdict>, k: int)
    ensures
        deciding(verdicts) == Some(k) <==> 0 <= k < verdicts.len() && verdicts[k] is Ignored && (
        forall|j: int| k < j < verdicts.len() ==> (#[trigger] verdicts[j]) is Silent),
    decreases verdicts.len(),
{
    if verdicts.len() > 0 {
        let init = verdicts.drop_last();
        let last = verdicts.len() - 1;
        the_last_word_decides(init, k);
        assert(verdicts.last() == verdicts[last]);
        assert(forall|j: int| 0 <= j < init.len() ==> #[trigger] init[j] == verdicts[j]);
        if deciding(verdicts) == Some(k) && verdicts.last() is Silent {
            assert forall|j: int| k < j < verdicts.len() implies (#[trigger] verdicts[j])
                is Silent by {
                if j < init.len() {
                    assert(init[j] is Silent);
                }
            }
        }
    }
}

/// An entry is read exactly where it is a file that is neither hidden nor left out
/// by an ignore file, and walked exactly where it is such a directory and not one of
/// those that are never walked. What is left out is left out for a reason that holds.
pub proof fn entries_fare_by_what_they_are(entry: Entry)
    ensures
        ({
            let open = entry.ignored_by is None && !(entry.name@.len() > 0 && entry.name@[0]
                == '.');
            let never = entry.name@ == "target"@ || entry.name@ == "node_modules"@ || entry.name@
                == "__pycache__"@ || entry.name@ == ".git"@;
            &&& entry.fate() is Read <==> open && entry.is_file && !entry.is_dir
            &&& entry.fate() is Walk <==> open && entry.is_dir && !never
            &&& entry.fate() is Pass <==> open && !entry.is_file && !entry.is_dir
            &&& entry.fate() matches EntryFate::LeaveOut(reason) ==> {
                ||| entry.ignored_by is Some && reason == "ignored by "@ + entry.ignored_by->Some_0@
                ||| entry.name@[0] == '.' && reason == "hidden path"@
                ||| entry.is_dir && never && reason == "built-in excluded directory"@
            }
        }),
{
}

/// The output of an earlier link is known as such by its first line, with or without
/// a line before it that makes it executable, whatever follows.
pub proof fn earlier_output_is_known(rest: Seq<char>)
    ensures
        generated("# Linked by o-link"@ + rest),
        generated("# Ostadix-lang lifted project"@ + rest),
        generated("#!/usr/bin/env o\n"@ + "# Linked by o-link"@ + rest),
        generated("#!/usr/bin/env o\n"@ + "# Ostadix-lang lifted project"@ + rest),
        generated("#!/usr/bin/env o\r\n"@ + "# Linked by o-link"@ + rest),
        generated("#!/usr/bin/env o\r\n"@ + "# Ostadix-lang lifted project"@ + rest),
{
    lemma_first_lines();
    lemma_generated("# Linked by o-link"@, rest);
    lemma_generated("# Ostadix-lang lifted project"@, rest);
}

proof fn lemma_first_lines()
    ensures
        "# Linked by o-link"@.len() > 1,
        "# Linked by o-link"@[0] == '#' && "# Linked by o-link"@[1] == ' ',
        "# Ostadix-lang lifted project"@.len() > 1,
        "# Ostadix-lang lifted project"@[0] == '#' && "# Ostadix-lang lifted project"@[1] == ' ',
        "#!/usr/bin/env o\n"@.len() == 17,
        "#!/usr/bin/env o\n"@[1] == '!' && "#!/usr/bin/env o\n"@[16] == '\n',
        "#!/usr/bin/env o\r\n"@.len() == 18,
        "#!/usr/bin/env o\r\n"@[1] == '!' && "#!/usr/bin/env o\r\n"@[16] == '\r',
{
    reveal_strlit("# Linked by o-link");
    reveal_strlit("# Ostadix-lang lifted project");
    reveal_strlit("#!/usr/bin/env o\n");
    reveal_strlit("#!/usr/bin/env o\r\n");
}

proof fn lemma_generated(first: Seq<char>, rest: Seq<char>)
    requires
        first == "# Linked by o-link"@ || first == "# Ostadix-lang lifted project"@,
    ensures
        generated(first + rest),
        generated("#!/usr/bin/env o\n"@ + first + rest),
        generated("#!/usr/bin/env o\r\n"@ + first + rest),
{
    lemma_first_lines();
    let unix = "#!/usr/bin/env o\n"@;
    let dos = "#!/usr/bin/env o\r\n"@;
    let body = first + rest;
    assert(body.take(first.len() as int) =~= first);
    assert(body[1] == ' ');
    assert(!starts_with(body, unix)) by {
        if starts_with(body, unix) {
            assert(body.take(unix.len() as int)[1] == unix[1]);
        }
    }
    assert(!starts_with(body, dos)) by {
        if starts_with(body, dos) {
            assert(body.take(dos.len() as int)[1] == dos[1]);
        }
    }
    let a = unix + first + rest;
    assert(a.take(unix.len() as int) =~= unix);
    assert(a.skip(unix.len() as int) =~= body);
    assert(a[16] == '\n');
    assert(!starts_with(a, dos)) by {
        if starts_with(a, dos) {
            assert(a.take(dos.len() as int)[16] == dos[16]);
        }
    }
    let b = dos + first + rest;
    assert(b.take(dos.len() as int) =~= dos);
    assert(b.skip(dos.len() as int) =~= body);
}

/// A file that is read is linked exactly where it is text, not the output of an
/// earlier link, not the output of this one and not linked already; it is linked
/// under its own path, behind those before it, and else reported under it.
pub proof fn files_are_linked_or_reported(
    c: Collected,
    path: Seq<char>,
    identity: Place,
    content: Content,
)
    ensures
        ({
            let after = c.reading(path, identity, content);
            let fresh = c.output != Some(identity) && !c.identities.contains(identity);
            let linked = fresh && (content matches Content::Text(text) && !generated(text@));
            &&& linked ==> after.files == c.files.push(path) && after.skipped == c.skipped
                && after.identities == c.identities.push(identity)
            &&& !linked ==> after.files == c.files && after.identities == c.identities
                && after.skipped.len() == c.skipped.len() + 1 && after.skipped.drop_last()
                == c.skipped && after.skipped.last().0 == path
            &&& after.output == c.output && after.directories == c.directories
        }),
{
    let after = c.reading(path, identity, content);
    if after.skipped.len() == c.skipped.len() + 1 {
        assert(after.skipped.drop_last() =~= c.skipped);
    }
}

/// A report has a line for every path that was passed over, with its reason, and ends
/// with how many were taken and how many were not.
pub proof fn reports_name_every_path(files: CollectedFiles, i: int)
    requires
        0 <= i < files.skipped@.len(),
    ensures
        files.full_report().contains(
            "warning: skipped "@ + files.skipped@[i].path@ + " ("@ + files.skipped@[i].reason@
                + ")"@,
        ),
        files.full_report().len() == files.skipped@.len() + 1,
        files.full_report().last() == "o-link scan: "@ + decimal(files.files@.len()) + " selected, "@
            + decimal(files.skipped@.len()) + " skipped"@,
{
    let report = files.full_report();
    assert(report[i] == "warning: skipped "@ + files.skipped@[i].path@ + " ("@
        + files.skipped@[i].reason@ + ")"@);
}

/// Where reasons are counted, each is counted as often as it was given.
pub proof fn reasons_are_counted(
    all: Seq<Seq<char>>,
    reason: Seq<char>,
    other: Seq<char>,
    count: nat,
)
    ensures
        occurrences(Seq::empty(), reason) == 0,
        occurrences(all.push(reason), reason) == occurrences(all, reason) + 1,
        other != reason ==> occurrences(all.push(other), reason) == occurrences(all, reason),
        reason_line(reason, 1) == "warning: skipped "@ + decimal(1) + " path ("@ + reason + ")"@,
        count != 1 ==> reason_line(reason, count) == "warning: skipped "@ + decimal(count)
            + " paths ("@ + reason + ")"@,
{
    assert(all.push(reason).drop_last() =~= all);
    assert(all.push(other).drop_last() =~= all);
}

/// C, C++ and their headers are of one group, in which they import each other; every
/// other file is of the group of its own language.
pub proof fn headers_are_grouped_with_their_sources(
    p: Seq<char>,
    m: Seq<char>,
    e: Seq<char>,
    pairs: Seq<(Seq<char>, Seq<char>)>,
)
    requires
        p.len() > 0 ==> p.last() == '/',
        dotless(m),
        ending(e),
    ensures
        ({
            let x = lowered(e.skip(1));
            let path = p + m + e;
            let heads = x == "h"@ || x == "hh"@ || x == "hpp"@ || x == "hxx"@;
            &&& heads ==> dependency_group_of(path, pairs) == "c-family"@
            &&& backend_of(path, pairs) == "c"@ || backend_of(path, pairs) == "cpp"@
                ==> dependency_group_of(path, pairs) == "c-family"@
            &&& !heads && backend_of(path, pairs) != "c"@ && backend_of(path, pairs) != "cpp"@
                ==> dependency_group_of(path, pairs) == backend_of(path, pairs)
        }),
{
    reveal_strlit("h");
    reveal_strlit("hh");
    reveal_strlit("hpp");
    reveal_strlit("hxx");
    assert("h"@ =~= seq!['h']);
    assert("hh"@ =~= seq!['h', 'h']);
    assert("hpp"@ =~= seq!['h', 'p', 'p']);
    assert("hxx"@ =~= seq!['h', 'x', 'x']);
    files_are_named_by_their_stem(p, m, e);
}

/// The lines of an ignore file are its lines as they stand; a mark at the start that
/// says how the text is encoded is no part of the first.
pub proof fn encoding_marks_are_no_rule(line: Seq<char>, rest: Seq<char>)
    requires
        !line.contains('\n'),
        line.len() > 0,
        line[0] != '\u{feff}',
        line.last() != '\r',
    ensures
        rule_lines(line + seq!['\n'] + rest) == seq![line] + lines(rest),
        rule_lines(seq!['\u{feff}'] + line + seq!['\n'] + rest) == seq![line] + lines(rest),
        rule_lines(Seq::empty()).len() == 0,
{
    let mark = seq!['\u{feff}'];
    let marked = mark + line;
    lemma_read(line, rest);
    assert(!marked.contains('\n')) by {
        if marked.contains('\n') {
            let k = choose|k: int| 0 <= k < marked.len() && marked[k] == '\n';
            if k > 0 {
                assert(line[k - 1] == '\n');
            }
        }
    }
    assert(marked.last() == line.last());
    lemma_read(marked, rest);
    assert(line.take(1)[0] == line[0]);
    assert(trim_start_text(line, mark) == line);
    assert(marked.take(1) =~= mark);
    assert(marked.skip(1) =~= line);
    assert(trim_start_text(marked, mark) == trim_start_text(line, mark));
    assert((seq![line] + lines(rest)).skip(1) =~= lines(rest));
    assert((seq![marked] + lines(rest)).skip(1) =~= lines(rest));
}

proof fn lemma_read(line: Seq<char>, rest: Seq<char>)
    requires
        !line.contains('\n'),
        line.len() > 0,
        line.last() != '\r',
    ensures
        lines(line + seq!['\n'] + rest) == seq![line] + lines(rest),
{
    crate::text_laws::lemma_line_read(line, rest);
    let s = line + seq!['\n'] + rest;
    let p = line.len() as int;
    assert(s[p - 1] == line[p - 1]);
    assert(s.take(p) =~= line);
    assert(s.len() > 0);
}

/// Every line of an ignore file that cannot be used is reported, in order, and no
/// other is.
pub proof fn useless_rules_are_reported(list: Seq<Seq<char>>, line: Seq<char>)
    ensures
        faults(Seq::empty()).len() == 0,
        crate::outside::line_fault(line) matches Some(fault) ==> faults(list.push(line)) == faults(
            list,
        ).push(fault),
        crate::outside::line_fault(line) is None ==> faults(list.push(line)) == faults(list),
{
    assert(list.push(line).drop_last() =~= list);
}

/// A report by reasons has a line for each reason, with how often it was given.
pub proof fn reasons_have_a_line_each(files: CollectedFiles, each: Seq<Seq<char>>, i: int)
    requires
        0 <= i < each.len(),
    ensures
        files.grouped_report(each).len() == each.len() + 1,
        files.grouped_report(each)[i] == reason_line(
            each[i],
            occurrences(files.skipped@.map_values(|s: SkippedPath| s.reason@), each[i]),
        ),
        files.grouped_report(each).last() == "o-link scan: "@ + decimal(files.files@.len())
            + " selected, "@ + decimal(files.skipped@.len()) + " skipped"@,
{
}

} // verus!
