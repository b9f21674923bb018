//! What holds of the modules that a source imports, in terms of the import forms
//! of each language and of the names that they give.

use vstd::prelude::*;

use crate::imports::{
    candidates, dot_for_slash, import_extensions, imports, module_name, without_suffix,
};
use crate::text::{
    any_of, ends_with, is_space, lowered, replaced, separators, starts_with, trim, trim_end_by,
    trim_end_text, trim_start_by, trim_start_text,
};
use crate::text_laws::{lemma_split_whole, lemma_starts, lemma_trimmed, splitting_goes_through};

verus! {

/// Whether a character has no meaning of its own in an import.
pub open spec fn plain(c: char) -> bool {
    !is_space(c) && c != '\'' && c != '"' && c != '(' && c != ')' && c != ';' && c != ',' && c
        != '.' && c != '/' && c != '\\' && c != ':' && c != '*' && c != '{' && c != '}' && c != '['
        && c != ']'
}

/// Whether a text is the name of one module.
pub open spec fn module_word(m: Seq<char>) -> bool {
    m.len() > 0 && forall|i: int| 0 <= i < m.len() ==> plain(#[trigger] m[i])
}

/// What may stand in front of the name of a module of one's own.
pub open spec fn lead(l: Seq<char>) -> bool {
    ||| l == ""@
    ||| l == "./"@
    ||| l == "../"@
    ||| l == "crate::"@
    ||| l == "self::"@
    ||| l == "super::"@
}

/// The endings of the source files that may be imported by their file name.
pub open spec fn source_ending(e: Seq<char>) -> bool {
    ||| e == ".py"@
    ||| e == ".js"@
    ||| e == ".mjs"@
    ||| e == ".cjs"@
    ||| e == ".rs"@
    ||| e == ".h"@
    ||| e == ".hpp"@
    ||| e == ".c"@
    ||| e == ".cpp"@
    ||| e == ".java"@
    ||| e == ".hs"@
    ||| e == ".rb"@
    ||| e == ".ml"@
    ||| e == ".rkt"@
    ||| e == ".scm"@
    ||| e == ".lisp"@
    ||| e == ".sh"@
    ||| e == ".nix"@
    ||| e == ".wl"@
    ||| e == ".m"@
}

/// Whether a text is a dot and something without another dot.
spec fn one_dot(e: Seq<char>) -> bool {
    e.len() >= 2 && e[0] == '.' && forall|i: int|
        1 <= i < e.len() ==> #[trigger] e[i] != '.' && plain(e[i])
}

proof fn lemma_endings()
    ensures
        import_extensions().len() == 20,
        forall|i: int|
            0 <= i < import_extensions().len() ==> one_dot(#[trigger] import_extensions()[i]),
        forall|e: Seq<char>| #[trigger] source_ending(e) <==> import_extensions().contains(e),
{
    reveal_strlit(".py");
    reveal_strlit(".js");
    reveal_strlit(".mjs");
    reveal_strlit(".cjs");
    reveal_strlit(".rs");
    reveal_strlit(".h");
    reveal_strlit(".hpp");
    reveal_strlit(".c");
    reveal_strlit(".cpp");
    reveal_strlit(".java");
    reveal_strlit(".hs");
    reveal_strlit(".rb");
    reveal_strlit(".ml");
    reveal_strlit(".rkt");
    reveal_strlit(".scm");
    reveal_strlit(".lisp");
    reveal_strlit(".sh");
    reveal_strlit(".nix");
    reveal_strlit(".wl");
    reveal_strlit(".m");
    let all = import_extensions();
    assert(one_dot(all[0]) && one_dot(all[1]) && one_dot(all[2]) && one_dot(all[3]) && one_dot(all[4]));
    assert(one_dot(all[5]) && one_dot(all[6]) && one_dot(all[7]) && one_dot(all[8]) && one_dot(all[9]));
    assert(one_dot(all[10]) && one_dot(all[11]) && one_dot(all[12]) && one_dot(all[13]) && one_dot(
        all[14],
    ));
    assert(one_dot(all[15]) && one_dot(all[16]) && one_dot(all[17]) && one_dot(all[18]) && one_dot(
        all[19],
    ));
    assert forall|e: Seq<char>| #[trigger] source_ending(e) implies all.contains(e) by {
        assert(all[0] == ".py"@ && all[1] == ".js"@ && all[2] == ".mjs"@ && all[3] == ".cjs"@ && all[4]
            == ".rs"@ && all[5] == ".h"@ && all[6] == ".hpp"@ && all[7] == ".c"@ && all[8]
            == ".cpp"@ && all[9] == ".java"@ && all[10] == ".hs"@ && all[11] == ".rb"@ && all[12]
            == ".ml"@ && all[13] == ".rkt"@ && all[14] == ".scm"@ && all[15] == ".lisp"@ && all[16]
            == ".sh"@ && all[17] == ".nix"@ && all[18] == ".wl"@ && all[19] == ".m"@);
    }
}

/// A text with one ending at the end loses just that.
proof fn lemma_cut(y: Seq<char>, e: Seq<char>, list: Seq<Seq<char>>)
    requires
        one_dot(e),
        list.contains(e),
        forall|i: int| 0 <= i < list.len() ==> one_dot(#[trigger] list[i]),
    ensures
        without_suffix(y + e, list) == y,
    decreases list.len(),
{
    let s = y + e;
    let t = list[0];
    assert(one_dot(t));
    if ends_with(s, t) {
        lemma_same_ending(y, e, t);
        assert(s.take(s.len() - t.len()) =~= y);
    } else {
        assert(s.skip(s.len() - e.len()) =~= e);
        assert(t != e);
        let rest = list.skip(1);
        let k = choose|k: int| 0 <= k < list.len() && list[k] == e;
        assert(rest[k - 1] == e);
        assert forall|i: int| 0 <= i < rest.len() implies one_dot(#[trigger] rest[i]) by {
            assert(rest[i] == list[i + 1]);
        }
        lemma_cut(y, e, rest);
    }
}

proof fn lemma_same_ending(y: Seq<char>, e: Seq<char>, t: Seq<char>)
    requires
        one_dot(e),
        one_dot(t),
        ends_with(y + e, t),
    ensures
        t == e,
{
    let s = y + e;
    let at = s.len() - t.len();
    assert forall|i: int| 0 <= i < t.len() implies t[i] == s[at + i] by {
        assert(s.skip(at)[i] == s[at + i]);
    }
    assert(s[at] == '.');
    if t.len() < e.len() {
        assert(s[at] == e[at - y.len()]);
    } else if t.len() > e.len() {
        assert(s[y.len() as int] == '.');
        assert(t[y.len() - at] == '.');
    }
    assert(t =~= e);
}

/// A text that ends in none of the endings keeps its end.
proof fn lemma_no_cut(s: Seq<char>, list: Seq<Seq<char>>)
    requires
        forall|i: int| 0 <= i < list.len() ==> !ends_with(s, #[trigger] list[i]),
    ensures
        without_suffix(s, list) == s,
    decreases list.len(),
{
    if list.len() > 0 {
        assert(!ends_with(s, list[0]));
        let rest = list.skip(1);
        assert forall|i: int| 0 <= i < rest.len() implies !ends_with(s, #[trigger] rest[i]) by {
            assert(rest[i] == list[i + 1]);
        }
        lemma_no_cut(s, rest);
    }
}

proof fn lemma_replaced_behind(a: Seq<char>, b: Seq<char>)
    requires
        forall|i: int| 0 <= i < a.len() ==> #[trigger] a[i] != ':',
    ensures
        replaced(a + b, "::"@, "."@) == a + replaced(b, "::"@, "."@),
    decreases a.len(),
{
    reveal_strlit("::");
    let s = a + b;
    if a.len() == 0 {
        assert(s =~= b);
        assert(a + replaced(b, "::"@, "."@) =~= replaced(b, "::"@, "."@));
    } else {
        assert(a[0] != ':');
        assert(s[0] == a[0]);
        if starts_with(s, "::"@) {
            assert(s.take(2)[0] == s[0]);
            assert("::"@[0] == ':');
        }
        assert(s.skip(1) =~= a.skip(1) + b);
        lemma_replaced_behind(a.skip(1), b);
        assert(replaced(s, "::"@, "."@) =~= a + replaced(b, "::"@, "."@));
    }
}

proof fn lemma_nothing_replaced(a: Seq<char>)
    requires
        forall|i: int| 0 <= i < a.len() ==> #[trigger] a[i] != ':',
    ensures
        replaced(a, "::"@, "."@) == a,
{
    let none = Seq::<char>::empty();
    lemma_replaced_behind(a, none);
    assert(a + none =~= a);
    assert(replaced(none, "::"@, "."@) =~= none);
}

/// What the parts of a module's name are joined by.
pub open spec fn joint(j: Seq<char>) -> bool {
    j == "."@ || j == "/"@ || j == "\\"@ || j == "::"@
}

/// A joint between parts is a dot in the name.
proof fn lemma_dotted(d: Seq<char>, j: Seq<char>, m: Seq<char>)
    requires
        module_word(d),
        joint(j),
        forall|i: int|
            0 <= i < m.len() ==> #[trigger] m[i] != ':' && m[i] != '/' && m[i] != '\\',
    ensures
        replaced(d + j + m, "::"@, "."@).map_values(|c: char| dot_for_slash(c)) == d + seq!['.'] + m,
{
    reveal_strlit(".");
    reveal_strlit("/");
    reveal_strlit("\\");
    reveal_strlit("::");
    let f = |c: char| dot_for_slash(c);
    assert forall|i: int| 0 <= i < d.len() implies #[trigger] d[i] != ':' by {
        assert(plain(d[i]));
    }
    assert(d + j + m =~= d + (j + m));
    lemma_replaced_behind(d, j + m);
    lemma_nothing_replaced(m);
    if j == "::"@ {
        let s = j + m;
        assert(s.take(2) =~= "::"@);
        assert(s.skip(2) =~= m);
        assert(replaced(s, "::"@, "."@) == "."@ + m);
    } else {
        assert forall|i: int| 0 <= i < j.len() implies #[trigger] j[i] != ':' by {}
        lemma_replaced_behind(j, m);
    }
    let all = replaced(d + j + m, "::"@, "."@);
    let joined = if j == "::"@ {
        "."@
    } else {
        j
    };
    assert(all =~= d + (joined + m));
    assert forall|i: int| 0 <= i < all.len() implies #[trigger] all.map_values(f)[i] == (d + seq!['.']
        + m)[i] by {
        if i < d.len() {
            assert(all[i] == d[i]);
            assert(plain(d[i]));
        } else if i > d.len() {
            assert(all[i] == m[i - d.len() - 1]);
        }
    }
    assert(all.map_values(f) =~= d + seq!['.'] + m);
}

proof fn lemma_undotted(m: Seq<char>)
    requires
        forall|i: int|
            0 <= i < m.len() ==> #[trigger] m[i] != ':' && m[i] != '/' && m[i] != '\\',
    ensures
        replaced(m, "::"@, "."@).map_values(|c: char| dot_for_slash(c)) == m,
{
    lemma_nothing_replaced(m);
    assert(m.map_values(|c: char| dot_for_slash(c)) =~= m);
}

proof fn lemma_lead_taken(part: Seq<char>, x: Seq<char>)
    requires
        part.len() > 0,
        !starts_with(x, part),
    ensures
        trim_start_text(part + x, part) == x,
{
    lemma_starts(part, x);
    assert(trim_start_text(x, part) == x);
    assert(trim_start_text(part + x, part) == trim_start_text(x, part));
}

proof fn lemma_other_start(s: Seq<char>, part: Seq<char>, k: int)
    requires
        0 <= k < part.len(),
        k < s.len(),
        s[k] != part[k],
    ensures
        !starts_with(s, part),
        trim_start_text(s, part) == s,
{
    if starts_with(s, part) {
        assert(s.take(part.len() as int)[k] == s[k]);
    }
}

/// What is left of a specifier once its lead is taken.
proof fn lemma_rooted(l: Seq<char>, x: Seq<char>)
    requires
        lead(l),
        x.len() > 0,
        plain(x[0]),
        !starts_with(x, "crate::"@),
        !starts_with(x, "self::"@),
        !starts_with(x, "super::"@),
    ensures
        trim_start_text(
            trim_start_text(
                trim_start_text(
                    trim_start_text(trim_start_text(l + x, "crate::"@), "self::"@),
                    "super::"@,
                ),
                "./"@,
            ),
            "../"@,
        ) == x,
{
    reveal_strlit("");
    reveal_strlit("./");
    reveal_strlit("../");
    reveal_strlit("crate::");
    reveal_strlit("self::");
    reveal_strlit("super::");
    let s = l + x;
    lemma_other_start(x, "./"@, 0);
    lemma_other_start(x, "../"@, 0);
    if l == ""@ {
        assert(s =~= x);
    } else if l == "./"@ {
        assert(s[0] == '.' && s[1] == '/');
        lemma_other_start(s, "crate::"@, 0);
        lemma_other_start(s, "self::"@, 0);
        lemma_other_start(s, "super::"@, 0);
        lemma_lead_taken("./"@, x);
    } else if l == "../"@ {
        assert(s[0] == '.' && s[1] == '.');
        lemma_other_start(s, "crate::"@, 0);
        lemma_other_start(s, "self::"@, 0);
        lemma_other_start(s, "super::"@, 0);
        lemma_other_start(s, "./"@, 1);
        lemma_lead_taken("../"@, x);
    } else if l == "crate::"@ {
        lemma_lead_taken("crate::"@, x);
    } else if l == "self::"@ {
        assert(s[0] == 's');
        lemma_other_start(s, "crate::"@, 0);
        lemma_lead_taken("self::"@, x);
    } else {
        assert(s[0] == 's' && s[1] == 'u');
        lemma_other_start(s, "crate::"@, 0);
        lemma_other_start(s, "self::"@, 1);
        lemma_lead_taken("super::"@, x);
    }
}

/// The ends of a specifier that has no marks there are kept.
proof fn lemma_bare(s: Seq<char>)
    requires
        s.len() > 0,
        plain(s[0]) || s[0] == '.',
        plain(s.last()),
    ensures
        ({
            let marks = any_of(seq!['\'', '"', '(', ')', ';', ',']);
            trim_end_by(trim_start_by(trim(s), marks), marks) == s
        }),
{
    let set = seq!['\'', '"', '(', ')', ';', ','];
    let marks = any_of(set);
    lemma_trimmed(s);
    assert forall|c: char| plain(c) || c == '.' implies !#[trigger] marks(c) by {
        if set.contains(c) {
            let i = choose|i: int| 0 <= i < set.len() && set[i] == c;
            assert(set[i] == '\'' || set[i] == '"' || set[i] == '(' || set[i] == ')' || set[i]
                == ';' || set[i] == ',');
        }
    }
    assert(!marks(s[0]) && !marks(s.last()));
}

/// The ends of a name that has no dots there are kept.
proof fn lemma_tail(z: Seq<char>)
    requires
        z.len() > 0,
        plain(z[0]),
        plain(z.last()),
    ensures
        ({
            let dots = any_of(seq!['.']);
            trim(
                trim_end_text(
                    trim_end_text(trim_end_by(trim_start_by(z, dots), dots), ".*"@),
                    "::{"@,
                ),
            ) == z
        }),
{
    reveal_strlit(".*");
    reveal_strlit("::{");
    let set = seq!['.'];
    let dots = any_of(set);
    assert forall|c: char| plain(c) implies !#[trigger] dots(c) by {
        if set.contains(c) {
            assert(set[0] == c);
        }
    }
    assert(!dots(z[0]) && !dots(z.last()));
    if ends_with(z, ".*"@) {
        assert(z.skip(z.len() - 2)[1] == z.last());
    }
    if ends_with(z, "::{"@) {
        assert(z.skip(z.len() - 3)[2] == z.last());
    }
    lemma_trimmed(z);
}

proof fn lemma_word_names(l: Seq<char>, m: Seq<char>, e: Seq<char>)
    requires
        lead(l),
        module_word(m),
        e.len() == 0 || source_ending(e),
    ensures
        module_name(l + m + e) == m,
{
    let x = m + e;
    let s = l + m + e;
    assert(s =~= l + x);
    lemma_endings();
    if e.len() > 0 {
        let k = choose|k: int| 0 <= k < import_extensions().len() && import_extensions()[k] == e;
        assert(one_dot(import_extensions()[k]));
        assert(plain(e[e.len() - 1]));
    }
    assert(plain(m[0]) && plain(m[m.len() - 1]));
    assert(x[0] == m[0]);
    lemma_no_colon_start(m, e);
    lemma_lead_head(l, x);
    assert(x.last() == if e.len() > 0 { e.last() } else { m.last() });
    assert(s.last() == x.last());
    lemma_bare(s);
    lemma_rooted(l, x);
    assert forall|i: int| 0 <= i < x.len() implies #[trigger] x[i] != ':' && x[i] != '/' && x[i]
        != '\\' by {
        if i < m.len() {
            assert(plain(m[i]));
        } else if i > m.len() {
            assert(plain(e[i - m.len()]));
        }
    }
    lemma_undotted(x);
    if e.len() > 0 {
        lemma_cut(m, e, import_extensions());
    } else {
        assert(x =~= m);
        lemma_word_uncut(m);
    }
    lemma_tail(m);
}

proof fn lemma_word_uncut(m: Seq<char>)
    requires
        module_word(m),
    ensures
        without_suffix(m, import_extensions()) == m,
{
    lemma_endings();
    let list = import_extensions();
    assert forall|i: int| 0 <= i < list.len() implies !ends_with(m, #[trigger] list[i]) by {
        let t = list[i];
        assert(one_dot(t));
        if ends_with(m, t) {
            assert(m.skip(m.len() - t.len())[0] == m[m.len() - t.len()]);
            assert(plain(m[m.len() - t.len()]));
        }
    }
    lemma_no_cut(m, list);
}

/// A word is no lead.
proof fn lemma_no_colon_start(m: Seq<char>, e: Seq<char>)
    requires
        module_word(m),
        forall|i: int| 0 <= i < e.len() ==> #[trigger] e[i] != ':',
    ensures
        !starts_with(m + e, "crate::"@),
        !starts_with(m + e, "self::"@),
        !starts_with(m + e, "super::"@),
{
    reveal_strlit("crate::");
    reveal_strlit("self::");
    reveal_strlit("super::");
    let x = m + e;
    assert forall|i: int| 0 <= i < x.len() implies x[i] != ':' by {
        if i < m.len() {
            assert(plain(m[i]));
        } else {
            assert(e[i - m.len()] != ':');
        }
    }
    if starts_with(x, "crate::"@) {
        assert(x.take(7)[5] == x[5]);
    }
    if starts_with(x, "self::"@) {
        assert(x.take(6)[4] == x[4]);
    }
    if starts_with(x, "super::"@) {
        assert(x.take(7)[5] == x[5]);
    }
}

proof fn lemma_lead_head(l: Seq<char>, x: Seq<char>)
    requires
        lead(l),
        x.len() > 0,
        plain(x[0]),
    ensures
        plain((l + x)[0]) || (l + x)[0] == '.',
{
    reveal_strlit("");
    reveal_strlit("./");
    reveal_strlit("../");
    reveal_strlit("crate::");
    reveal_strlit("self::");
    reveal_strlit("super::");
    if l.len() == 0 {
        assert((l + x)[0] == x[0]);
    } else {
        assert((l + x)[0] == l[0]);
    }
}

/// A module is known by its name and by its name in small letters, and by nothing
/// else, whatever leads to it and whatever ending its file has.
pub proof fn modules_are_known_by_name(l: Seq<char>, m: Seq<char>, e: Seq<char>)
    requires
        lead(l),
        module_word(m),
        e.len() == 0 || source_ending(e),
    ensures
        candidates(l + m + e) == set![m, lowered(m)],
{
    lemma_word_names(l, m, e);
    let p = separators(seq!['.'], false);
    assert forall|j: int| 0 <= j < m.len() implies !p(#[trigger] m[j]) by {
        assert(plain(m[j]));
        if p(m[j]) {
            assert(seq!['.'][0] == m[j]);
        }
    }
    lemma_split_whole(m, p);
    assert(candidates(l + m + e) =~= set![m, lowered(m)]);
}

/// A module inside another is known by its whole name, with dots, by the outermost
/// name, by its own and by that in small letters, however the two are joined.
pub proof fn inner_modules_are_known_by_every_name(
    l: Seq<char>,
    d: Seq<char>,
    j: Seq<char>,
    m: Seq<char>,
    e: Seq<char>,
)
    requires
        lead(l),
        module_word(d),
        joint(j),
        module_word(m),
        j == "::"@ ==> d != "crate"@ && d != "self"@ && d != "super"@,
        source_ending(e) || (e.len() == 0 && !source_ending("."@ + m)),
    ensures
        candidates(l + d + j + m + e) == set![d + seq!['.'] + m, d, m, lowered(m)],
{
    let x = d + j + m + e;
    let s = l + d + j + m + e;
    assert(s =~= l + x);
    reveal_strlit(".");
    reveal_strlit("/");
    reveal_strlit("\\");
    reveal_strlit("::");
    lemma_endings();
    if e.len() > 0 {
        let k = choose|k: int| 0 <= k < import_extensions().len() && import_extensions()[k] == e;
        assert(one_dot(import_extensions()[k]));
        assert(plain(e[e.len() - 1]));
    }
    assert(plain(m[0]) && plain(m[m.len() - 1]) && plain(d[0]));
    assert(x[0] == d[0]);
    lemma_lead_head(l, x);
    assert(x.last() == if e.len() > 0 { e.last() } else { m.last() });
    assert(s.last() == x.last());
    lemma_bare(s);
    lemma_not_rooted(d, j, m + e);
    assert(x =~= d + j + (m + e));
    lemma_rooted(l, x);
    let tail = m + e;
    assert forall|i: int| 0 <= i < tail.len() implies #[trigger] tail[i] != ':' && tail[i] != '/'
        && tail[i] != '\\' by {
        if i < m.len() {
            assert(plain(m[i]));
        } else if i > m.len() {
            assert(plain(e[i - m.len()]));
        }
    }
    lemma_dotted(d, j, tail);
    let z = d + seq!['.'] + m;
    if e.len() > 0 {
        assert(d + seq!['.'] + tail =~= z + e);
        lemma_cut(z, e, import_extensions());
    } else {
        assert(d + seq!['.'] + tail =~= z);
        let list = import_extensions();
        assert forall|i: int| 0 <= i < list.len() implies !ends_with(z, #[trigger] list[i]) by {
            let t = list[i];
            assert(one_dot(t));
            if ends_with(z, t) {
                let dm = "."@ + m;
                assert(one_dot(dm)) by {
                    assert forall|k: int| 1 <= k < dm.len() implies #[trigger] dm[k] != '.' && plain(
                        dm[k],
                    ) by {
                        assert(dm[k] == m[k - 1]);
                        assert(plain(m[k - 1]));
                    }
                }
                assert(z =~= d + dm);
                lemma_same_ending(d, dm, t);
                assert(list.contains(dm));
                assert(source_ending(dm));
            }
        }
        lemma_no_cut(z, list);
    }
    assert(z[0] == d[0] && z.last() == m.last());
    lemma_tail(z);
    assert(module_name(s) == z);
    let p = separators(seq!['.'], false);
    assert(seq!['.'][0] == '.');
    assert(seq!['.'].contains('.'));
    assert forall|i: int| 0 <= i < d.len() implies !p(#[trigger] d[i]) by {
        assert(plain(d[i]));
        if p(d[i]) {
            assert(seq!['.'][0] == d[i]);
        }
    }
    assert forall|i: int| 0 <= i < m.len() implies !p(#[trigger] m[i]) by {
        assert(plain(m[i]));
        if p(m[i]) {
            assert(seq!['.'][0] == m[i]);
        }
    }
    lemma_split_whole(d, p);
    lemma_split_whole(m, p);
    splitting_goes_through(d, '.', m, p);
    assert(seq![d] + seq![m] =~= seq![d, m]);
    assert(candidates(s) =~= set![z, d, m, lowered(m)]);
}

proof fn lemma_not_rooted(d: Seq<char>, j: Seq<char>, tail: Seq<char>)
    requires
        module_word(d),
        joint(j),
        j == "::"@ ==> d != "crate"@ && d != "self"@ && d != "super"@,
    ensures
        !starts_with(d + j + tail, "crate::"@),
        !starts_with(d + j + tail, "self::"@),
        !starts_with(d + j + tail, "super::"@),
{
    reveal_strlit(".");
    reveal_strlit("/");
    reveal_strlit("\\");
    reveal_strlit("::");
    reveal_strlit("crate");
    reveal_strlit("self");
    reveal_strlit("super");
    reveal_strlit("crate::");
    reveal_strlit("self::");
    reveal_strlit("super::");
    assert("crate::"@ =~= "crate"@ + "::"@);
    assert("self::"@ =~= "self"@ + "::"@);
    assert("super::"@ =~= "super"@ + "::"@);
    lemma_not_led(d, j, tail, "crate"@, "crate::"@);
    lemma_not_led(d, j, tail, "self"@, "self::"@);
    lemma_not_led(d, j, tail, "super"@, "super::"@);
}

proof fn lemma_not_led(d: Seq<char>, j: Seq<char>, tail: Seq<char>, w: Seq<char>, p: Seq<char>)
    requires
        module_word(d),
        joint(j),
        j == "::"@ ==> d != w,
        module_word(w),
        p == w + "::"@,
    ensures
        !starts_with(d + j + tail, p),
{
    reveal_strlit(".");
    reveal_strlit("/");
    reveal_strlit("\\");
    reveal_strlit("::");
    let x = d + j + tail;
    if starts_with(x, p) {
        assert forall|i: int| 0 <= i < p.len() implies p[i] == x[i] by {
            assert(x.take(p.len() as int)[i] == x[i]);
        }
        let n = w.len() as int;
        assert(p[n] == ':');
        if d.len() > n {
            assert(x[n] == d[n]);
            assert(plain(d[n]));
        } else if d.len() < n {
            assert(x[d.len() as int] == j[0]);
            assert(p[d.len() as int] == w[d.len() as int]);
            assert(plain(w[d.len() as int]));
        } else {
            assert(x[n] == j[0]);
            assert(d =~= w) by {
                assert forall|i: int| 0 <= i < n implies d[i] == w[i] by {
                    assert(x[i] == d[i] && p[i] == w[i]);
                }
            }
        }
    }
}

} // verus!
