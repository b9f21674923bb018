//! What holds of texts inside other texts: every character is written as itself, but
//! for those that would end the text or mean something else in it.

use vstd::prelude::*;

use crate::device::{positive, prime_command_text, quoted, quoted_arguments, without_repeats};
use crate::quoting::{
    c_quoted, dot_quoted, html_quoted, label_quoted, lemma_replaced_concat, lemma_replaced_one,
};
use crate::text::{decimal, replaced};

verus! {

/// A text is replaced character by character.
proof fn lemma_cons(x: char, rest: Seq<char>, c: char, to: Seq<char>)
    ensures
        replaced(seq![x] + rest, seq![c], to) == (if x == c {
            to
        } else {
            seq![x]
        }) + replaced(rest, seq![c], to),
{
    lemma_replaced_concat(seq![x], rest, c, to);
    lemma_replaced_one(x, c, to);
}

/// A text without a character stays where that character is replaced.
proof fn lemma_same(s: Seq<char>, c: char, to: Seq<char>)
    requires
        forall|i: int| 0 <= i < s.len() ==> #[trigger] s[i] != c,
    ensures
        replaced(s, seq![c], to) == s,
    decreases s.len(),
{
    if s.len() == 0 {
        assert(replaced(s, seq![c], to) =~= s);
    } else {
        let rest = s.skip(1);
        assert forall|i: int| 0 <= i < rest.len() implies #[trigger] rest[i] != c by {
            assert(rest[i] == s[i + 1]);
        }
        lemma_same(rest, c, to);
        assert(s =~= seq![s[0]] + rest);
        lemma_cons(s[0], rest, c, to);
    }
}

proof fn lemma_signs()
    ensures
        "\\"@ == seq!['\\'],
        "\""@ == seq!['"'],
        "\n"@ == seq!['\n'],
        "\r"@ == seq!['\r'],
        "&"@ == seq!['&'],
        "<"@ == seq!['<'],
        ">"@ == seq!['>'],
        "\\\\"@ == seq!['\\', '\\'],
        "\\\""@ == seq!['\\', '"'],
        "\\n"@ == seq!['\\', 'n'],
        "\\r"@ == seq!['\\', 'r'],
{
    reveal_strlit("\\");
    reveal_strlit("\"");
    reveal_strlit("\n");
    reveal_strlit("\r");
    reveal_strlit("&");
    reveal_strlit("<");
    reveal_strlit(">");
    reveal_strlit("\\\\");
    reveal_strlit("\\\"");
    reveal_strlit("\\n");
    reveal_strlit("\\r");
    assert("\\"@ =~= seq!['\\']);
    assert("\""@ =~= seq!['"']);
    assert("\n"@ =~= seq!['\n']);
    assert("\r"@ =~= seq!['\r']);
    assert("&"@ =~= seq!['&']);
    assert("<"@ =~= seq!['<']);
    assert(">"@ =~= seq!['>']);
    assert("\\\\"@ =~= seq!['\\', '\\']);
    assert("\\\""@ =~= seq!['\\', '"']);
    assert("\\n"@ =~= seq!['\\', 'n']);
    assert("\\r"@ =~= seq!['\\', 'r']);
}

/// Inside a C string a backslash and a quote have a backslash before them, and all
/// else stands for itself.
pub proof fn c_strings_are_written_out(x: char, rest: Seq<char>)
    ensures
        c_quoted(""@) == ""@,
        x == '\\' ==> c_quoted(seq![x] + rest) == "\\\\"@ + c_quoted(rest),
        x == '"' ==> c_quoted(seq![x] + rest) == "\\\""@ + c_quoted(rest),
        x != '\\' && x != '"' ==> c_quoted(seq![x] + rest) == seq![x] + c_quoted(rest),
{
    lemma_signs();
    lemma_empty();
    let slashes = replaced(rest, "\\"@, "\\\\"@);
    lemma_cons(x, rest, '\\', "\\\\"@);
    let first = if x == '\\' {
        "\\\\"@
    } else {
        seq![x]
    };
    lemma_replaced_concat(first, slashes, '"', "\\\""@);
    if x == '\\' {
        lemma_same("\\\\"@, '"', "\\\""@);
    } else {
        lemma_replaced_one(x, '"', "\\\""@);
    }
}

proof fn lemma_empty()
    ensures
        ""@ == Seq::<char>::empty(),
        forall|c: char, to: Seq<char>| #[trigger] replaced(""@, seq![c], to) == ""@,
{
    reveal_strlit("");
    assert(""@ =~= Seq::<char>::empty());
}

/// Inside the string of a drawing a line feed is written as such, and all else as in
/// a C string.
pub proof fn drawings_are_written_out(x: char, rest: Seq<char>)
    ensures
        dot_quoted(""@) == ""@,
        x == '\n' ==> dot_quoted(seq![x] + rest) == "\\n"@ + dot_quoted(rest),
        x == '\\' ==> dot_quoted(seq![x] + rest) == "\\\\"@ + dot_quoted(rest),
        x == '"' ==> dot_quoted(seq![x] + rest) == "\\\""@ + dot_quoted(rest),
        x != '\n' && x != '\\' && x != '"' ==> dot_quoted(seq![x] + rest) == seq![x] + dot_quoted(
            rest,
        ),
{
    lemma_signs();
    lemma_empty();
    c_strings_are_written_out(x, rest);
    let first = if x == '\\' {
        "\\\\"@
    } else if x == '"' {
        "\\\""@
    } else {
        seq![x]
    };
    lemma_replaced_concat(first, c_quoted(rest), '\n', "\\n"@);
    if x == '\\' || x == '"' {
        lemma_same(first, '\n', "\\n"@);
    } else {
        lemma_replaced_one(x, '\n', "\\n"@);
    }
}

/// Inside a label a carriage return is written as such too.
pub proof fn labels_are_written_out(x: char, rest: Seq<char>)
    ensures
        label_quoted(""@) == ""@,
        x == '\n' ==> label_quoted(seq![x] + rest) == "\\n"@ + label_quoted(rest),
        x == '\r' ==> label_quoted(seq![x] + rest) == "\\r"@ + label_quoted(rest),
        x == '\\' ==> label_quoted(seq![x] + rest) == "\\\\"@ + label_quoted(rest),
        x == '"' ==> label_quoted(seq![x] + rest) == "\\\""@ + label_quoted(rest),
        x != '\n' && x != '\r' && x != '\\' && x != '"' ==> label_quoted(seq![x] + rest) == seq![x]
            + label_quoted(rest),
{
    lemma_signs();
    lemma_empty();
    c_strings_are_written_out(x, rest);
    let first = if x == '\\' {
        "\\\\"@
    } else if x == '"' {
        "\\\""@
    } else {
        seq![x]
    };
    let tail = replaced(c_quoted(rest), "\r"@, "\\r"@);
    lemma_replaced_concat(first, c_quoted(rest), '\r', "\\r"@);
    if x == '\\' || x == '"' {
        lemma_same(first, '\r', "\\r"@);
    } else {
        lemma_replaced_one(x, '\r', "\\r"@);
    }
    let second = if x == '\r' {
        "\\r"@
    } else {
        first
    };
    lemma_replaced_concat(second, tail, '\n', "\\n"@);
    if x == '\\' || x == '"' || x == '\r' {
        lemma_same(second, '\n', "\\n"@);
    } else {
        lemma_replaced_one(x, '\n', "\\n"@);
    }
}

/// How a character is written inside a page.
pub open spec fn page_piece(x: char) -> Seq<char> {
    if x == '&' {
        "&amp;"@
    } else if x == '<' {
        "&lt;"@
    } else if x == '>' {
        "&gt;"@
    } else if x == '"' {
        "&quot;"@
    } else {
        seq![x]
    }
}

proof fn lemma_entities()
    ensures
        forall|i: int|
            0 <= i < "&amp;"@.len() ==> #[trigger] "&amp;"@[i] != '<' && "&amp;"@[i] != '>'
                && "&amp;"@[i] != '"',
        forall|i: int|
            0 <= i < "&lt;"@.len() ==> #[trigger] "&lt;"@[i] != '>' && "&lt;"@[i] != '"',
        forall|i: int| 0 <= i < "&gt;"@.len() ==> #[trigger] "&gt;"@[i] != '"',
{
    reveal_strlit("&amp;");
    reveal_strlit("&lt;");
    reveal_strlit("&gt;");
}

/// Inside a page every character stands for itself, but for those that mark
/// something up, which are written by their names.
pub proof fn pages_are_written_out(x: char, rest: Seq<char>)
    ensures
        html_quoted(""@) == ""@,
        html_quoted(seq![x] + rest) == page_piece(x) + html_quoted(rest),
{
    lemma_signs();
    lemma_empty();
    lemma_entities();
    let amp = "&amp;"@;
    let lt = "&lt;"@;
    let gt = "&gt;"@;
    let quot = "&quot;"@;
    let a = replaced(rest, "&"@, amp);
    let b = replaced(a, "<"@, lt);
    let c = replaced(b, ">"@, gt);
    lemma_cons(x, rest, '&', amp);
    let one = if x == '&' {
        amp
    } else {
        seq![x]
    };
    lemma_replaced_concat(one, a, '<', lt);
    if x == '&' {
        lemma_same(amp, '<', lt);
    } else {
        lemma_replaced_one(x, '<', lt);
    }
    let two = if x == '<' {
        lt
    } else {
        one
    };
    lemma_replaced_concat(two, b, '>', gt);
    if x == '&' || x == '<' {
        lemma_same(two, '>', gt);
    } else {
        lemma_replaced_one(x, '>', gt);
    }
    let three = if x == '>' {
        gt
    } else {
        two
    };
    lemma_replaced_concat(three, c, '"', quot);
    if x == '&' || x == '<' || x == '>' {
        lemma_same(three, '"', quot);
    } else {
        lemma_replaced_one(x, '"', quot);
    }
}

/// Where a shell reads a value, every character of it stands in single quotes, and a
/// single quote in double ones.
pub proof fn shell_words_are_written_out(x: char, rest: Seq<char>)
    ensures
        quoted(""@) == "''"@,
        x != '\'' ==> quoted(seq![x] + rest) == "'"@ + seq![x] + quoted(rest).skip(1),
        x == '\'' ==> quoted(seq![x] + rest) == "''\"'\"'"@ + quoted(rest).skip(1),
{
    lemma_empty();
    reveal_strlit("''");
    reveal_strlit("'");
    reveal_strlit("''\"'\"'");
    let to = seq!['\'', '"', '\'', '"', '\''];
    lemma_cons(x, rest, '\'', to);
    assert(quoted(""@) =~= "''"@);
    let inner = replaced(rest, seq!['\''], to);
    assert(quoted(rest).skip(1) =~= inner + seq!['\'']);
    if x == '\'' {
        assert("''\"'\"'"@ =~= seq!['\''] + to);
        assert(quoted(seq![x] + rest) =~= "''\"'\"'"@ + quoted(rest).skip(1));
    } else {
        assert("'"@ =~= seq!['\'']);
        assert(quoted(seq![x] + rest) =~= "'"@ + seq![x] + quoted(rest).skip(1));
    }
}

/// A command that is run as another user names the program first and each argument
/// as one word, in their order.
pub proof fn commands_quote_every_argument(arguments: Seq<Seq<char>>, last: Seq<char>)
    ensures
        quoted_arguments(Seq::empty()) == "exec"@,
        quoted_arguments(arguments.push(last)) == quoted_arguments(arguments) + " "@ + quoted(last),
{
    assert(arguments.push(last).drop_last() =~= arguments);
}

/// The command that applies prime mode names the helper, the action, the process, its
/// user and when it started, in this order.
pub proof fn prime_commands_name_the_process(
    helper: Seq<char>,
    action: Seq<char>,
    pid: u32,
    uid: u32,
    start_time: u64,
)
    ensures
        prime_command_text(helper, action, pid, uid, start_time) == "exec "@ + quoted(helper)
            + " __prime-apply "@ + action + " "@ + decimal(pid as nat) + " "@ + decimal(uid as nat)
            + " "@ + decimal(start_time as nat),
{
}

/// A number of jobs is read as it is spelled, unless it is none.
pub proof fn jobs_are_read_as_spelled(n: u64)
    ensures
        n > 0 ==> positive(decimal(n as nat)) == Some(n),
        positive(decimal(0)) is None,
{
    crate::text::decimal_spells(n as nat);
    crate::text::decimal_spells(0);
    let text = decimal(n as nat);
    let zero = decimal(0);
    assert(crate::text::is_ascii_digit(text[0]));
    assert(crate::text::is_ascii_digit(zero[0]));
}

/// Without its repetitions a list holds the same texts, each once.
pub proof fn repetitions_are_left_out(list: Seq<Seq<char>>)
    ensures
        without_repeats(list).no_duplicates(),
        forall|x: Seq<char>| #[trigger] without_repeats(list).contains(x) <==> list.contains(x),
    decreases list.len(),
{
    if list.len() > 0 {
        let init = list.drop_last();
        let before = without_repeats(init);
        let all = without_repeats(list);
        let last = list.last();
        repetitions_are_left_out(init);
        assert(last == list[list.len() - 1]);
        assert forall|x: Seq<char>| #[trigger] all.contains(x) <==> list.contains(x) by {
            if list.contains(x) {
                let k = choose|k: int| 0 <= k < list.len() && list[k] == x;
                if k < init.len() {
                    assert(init[k] == x);
                    assert(init.contains(x));
                    assert(before.contains(x));
                    let j = choose|j: int| 0 <= j < before.len() && before[j] == x;
                    assert(all[j] == x);
                } else if init.contains(last) {
                    assert(before.contains(x));
                } else {
                    assert(all[before.len() as int] == x);
                }
            }
            if all.contains(x) {
                let j = choose|j: int| 0 <= j < all.len() && all[j] == x;
                if j < before.len() {
                    assert(before[j] == x);
                    assert(before.contains(x));
                    let k = choose|k: int| 0 <= k < init.len() && init[k] == x;
                    assert(list[k] == x);
                } else {
                    assert(x == last);
                }
            }
        }
        if !init.contains(last) {
            assert forall|i: int, j: int|
                0 <= i < all.len() && 0 <= j < all.len() && i != j implies all[i] != all[j] by {
                if i < before.len() && j < before.len() {
                    assert(before[i] != before[j]);
                } else if i < before.len() {
                    assert(before.contains(before[i]));
                } else {
                    assert(before.contains(before[j]));
                }
            }
        }
    }
}

} // verus!
