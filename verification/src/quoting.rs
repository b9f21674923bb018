//! Texts inside other texts: C strings, DOT labels and HTML.

use vstd::prelude::*;

use crate::text::{replace_text, replaced};

verus! {

/// A text inside a C string.
pub open spec fn c_quoted(value: Seq<char>) -> Seq<char> {
    replaced(replaced(value, "\\"@, "\\\\"@), "\""@, "\\\""@)
}

/// Escapes a text for a C string.
pub fn c_escape(value: &str) -> (out: String)
    ensures
        out@ == c_quoted(value@),
{
    replace_text(replace_text(value, "\\", "\\\\").as_str(), "\"", "\\\"")
}

/// A text inside a DOT string.
pub open spec fn dot_quoted(value: Seq<char>) -> Seq<char> {
    replaced(c_quoted(value), "\n"@, "\\n"@)
}

/// Escapes a text for a DOT string.
pub fn dot_escape(value: &str) -> (out: String)
    ensures
        out@ == dot_quoted(value@),
{
    replace_text(c_escape(value).as_str(), "\n", "\\n")
}

/// A text inside HTML.
pub open spec fn html_quoted(value: Seq<char>) -> Seq<char> {
    replaced(
        replaced(replaced(replaced(value, "&"@, "&amp;"@), "<"@, "&lt;"@), ">"@, "&gt;"@),
        "\""@,
        "&quot;"@,
    )
}

/// Escapes a text for HTML.
pub fn html_escape(value: &str) -> (out: String)
    ensures
        out@ == html_quoted(value@),
{
    let a = replace_text(value, "&", "&amp;");
    let b = replace_text(a.as_str(), "<", "&lt;");
    let c = replace_text(b.as_str(), ">", "&gt;");
    replace_text(c.as_str(), "\"", "&quot;")
}

/// A text inside the label of a graph.
pub open spec fn label_quoted(value: Seq<char>) -> Seq<char> {
    replaced(replaced(c_quoted(value), "\r"@, "\\r"@), "\n"@, "\\n"@)
}

/// Escapes a text for the label of a graph.
pub fn label_escape(value: &str) -> (out: String)
    ensures
        out@ == label_quoted(value@),
{
    replace_text(replace_text(c_escape(value).as_str(), "\r", "\\r").as_str(), "\n", "\\n")
}

pub proof fn lemma_replaced_concat(a: Seq<char>, b: Seq<char>, c: char, to: Seq<char>)
    ensures
        replaced(a + b, seq![c], to) == replaced(a, seq![c], to) + replaced(b, seq![c], to),
    decreases a.len(),
{
    let from = seq![c];
    if a.len() == 0 {
        assert(a + b =~= b);
        assert(replaced(a, from, to) + replaced(b, from, to) =~= replaced(b, from, to));
    } else {
        let rest = a.skip(1);
        lemma_replaced_concat(rest, b, c, to);
        lemma_starts(a, c);
        lemma_starts(a + b, c);
        assert((a + b).skip(1) =~= rest + b);
        assert((a + b)[0] == a[0]);
        if a[0] == c {
            assert(replaced(a + b, from, to) =~= replaced(a, from, to) + replaced(b, from, to));
        } else {
            assert(replaced(a + b, from, to) =~= replaced(a, from, to) + replaced(b, from, to));
        }
    }
}

proof fn lemma_starts(s: Seq<char>, c: char)
    requires
        s.len() > 0,
    ensures
        crate::text::starts_with(s, seq![c]) <==> s[0] == c,
{
    if s[0] == c {
        assert(s.take(1) =~= seq![c]);
    } else if crate::text::starts_with(s, seq![c]) {
        assert(s.take(1)[0] == c);
    }
}

pub proof fn lemma_replaced_one(x: char, c: char, to: Seq<char>)
    ensures
        replaced(seq![x], seq![c], to) == (if x == c {
            to
        } else {
            seq![x]
        }),
{
    let s = seq![x];
    lemma_starts(s, c);
    assert(s.skip(1) =~= Seq::<char>::empty());
    assert(replaced(Seq::<char>::empty(), seq![c], to) =~= Seq::<char>::empty());
    if x == c {
        assert(to + Seq::<char>::empty() =~= to);
    } else {
        assert(seq![x] + Seq::<char>::empty() =~= seq![x]);
    }
}

proof fn lemma_replaced_two(x: char, y: char, c: char, to: Seq<char>)
    requires
        x != c,
        y != c,
    ensures
        replaced(seq![x, y], seq![c], to) == seq![x, y],
{
    lemma_replaced_one(x, c, to);
    lemma_replaced_one(y, c, to);
    lemma_replaced_concat(seq![x], seq![y], c, to);
    assert(seq![x] + seq![y] =~= seq![x, y]);
}

/// What a character becomes inside a C string.
pub open spec fn c_piece(x: char) -> Seq<char> {
    if x == '\\' || x == '"' {
        seq!['\\', x]
    } else {
        seq![x]
    }
}

proof fn lemma_c_literals()
    ensures
        "\\"@ == seq!['\\'],
        "\\\\"@ == seq!['\\', '\\'],
        "\""@ == seq!['"'],
        "\\\""@ == seq!['\\', '"'],
{
    reveal_strlit("\\");
    reveal_strlit("\\\\");
    reveal_strlit("\"");
    reveal_strlit("\\\"");
    assert("\\"@ =~= seq!['\\']);
    assert("\\\\"@ =~= seq!['\\', '\\']);
    assert("\""@ =~= seq!['"']);
    assert("\\\""@ =~= seq!['\\', '"']);
}

proof fn lemma_c_step(x: char, rest: Seq<char>)
    ensures
        c_quoted(seq![x] + rest) == c_piece(x) + c_quoted(rest),
{
    lemma_c_literals();
    let b = "\\\\"@;
    let q = "\\\""@;
    lemma_replaced_concat(seq![x], rest, '\\', b);
    lemma_replaced_one(x, '\\', b);
    let first = replaced(seq![x], seq!['\\'], b);
    lemma_replaced_concat(first, replaced(rest, seq!['\\'], b), '"', q);
    if x == '\\' {
        lemma_replaced_two('\\', '\\', '"', q);
    } else {
        lemma_replaced_one(x, '"', q);
    }
}

/// The text that a C string holds; nothing, where a quote ends it too early or
/// a backslash stands at its end.
pub open spec fn c_read(s: Seq<char>) -> Option<Seq<char>>
    decreases s.len(),
{
    if s.len() == 0 {
        Some(Seq::empty())
    } else if s[0] == '"' {
        None
    } else if s[0] == '\\' {
        if s.len() < 2 {
            None
        } else {
            match c_read(s.skip(2)) {
                Some(rest) => Some(seq![s[1]] + rest),
                None => None,
            }
        }
    } else {
        match c_read(s.skip(1)) {
            Some(rest) => Some(seq![s[0]] + rest),
            None => None,
        }
    }
}

/// A text that was escaped for a C string does not end the string, and is what
/// the string holds.
pub proof fn c_strings_hold_their_text(value: Seq<char>)
    ensures
        c_read(c_quoted(value)) == Some(value),
    decreases value.len(),
{
    lemma_c_literals();
    if value.len() == 0 {
        assert(c_quoted(value) =~= Seq::<char>::empty());
        assert(value =~= Seq::<char>::empty());
    } else {
        let rest = value.skip(1);
        c_strings_hold_their_text(rest);
        assert(value =~= seq![value[0]] + rest);
        lemma_c_step(value[0], rest);
        let s = c_quoted(value);
        let piece = c_piece(value[0]);
        assert(s =~= piece + c_quoted(rest));
        if piece.len() == 2 {
            assert(s[0] == '\\' && s[1] == value[0]);
            assert(s.skip(2) =~= c_quoted(rest));
        } else {
            assert(s[0] == value[0]);
            assert(s.skip(1) =~= c_quoted(rest));
        }
    }
}

/// What a character becomes inside the label of a graph.
pub open spec fn label_piece(x: char) -> Seq<char> {
    if x == '\r' {
        seq!['\\', 'r']
    } else if x == '\n' {
        seq!['\\', 'n']
    } else {
        c_piece(x)
    }
}

proof fn lemma_label_step(x: char, rest: Seq<char>)
    ensures
        label_quoted(seq![x] + rest) == label_piece(x) + label_quoted(rest),
{
    reveal_strlit("\r");
    reveal_strlit("\n");
    reveal_strlit("\\r");
    reveal_strlit("\\n");
    assert("\r"@ =~= seq!['\r']);
    assert("\n"@ =~= seq!['\n']);
    assert("\\r"@ =~= seq!['\\', 'r']);
    assert("\\n"@ =~= seq!['\\', 'n']);
    let r = "\\r"@;
    let n = "\\n"@;
    lemma_c_step(x, rest);
    let piece = c_piece(x);
    let tail = c_quoted(rest);
    lemma_replaced_concat(piece, tail, '\r', r);
    let piece2 = replaced(piece, seq!['\r'], r);
    lemma_replaced_concat(piece2, replaced(tail, seq!['\r'], r), '\n', n);
    if x == '\\' || x == '"' {
        lemma_replaced_two('\\', x, '\r', r);
        lemma_replaced_two('\\', x, '\n', n);
    } else {
        lemma_replaced_one(x, '\r', r);
        if x == '\r' {
            lemma_replaced_two('\\', 'r', '\n', n);
        } else {
            lemma_replaced_one(x, '\n', n);
        }
    }
}

/// The text that the label of a graph holds; nothing, where a quote ends it too
/// early, it spans lines, or a backslash stands at its end.
pub open spec fn label_read(s: Seq<char>) -> Option<Seq<char>>
    decreases s.len(),
{
    if s.len() == 0 {
        Some(Seq::empty())
    } else if s[0] == '"' || s[0] == '\n' || s[0] == '\r' {
        None
    } else if s[0] == '\\' {
        if s.len() < 2 {
            None
        } else {
            match label_read(s.skip(2)) {
                Some(rest) => Some(
                    seq![
                        if s[1] == 'n' {
                            '\n'
                        } else if s[1] == 'r' {
                            '\r'
                        } else {
                            s[1]
                        },
                    ] + rest,
                ),
                None => None,
            }
        }
    } else {
        match label_read(s.skip(1)) {
            Some(rest) => Some(seq![s[0]] + rest),
            None => None,
        }
    }
}

/// A text that was escaped for the label of a graph neither ends the label nor
/// breaks its line, and is what the label holds.
pub proof fn labels_hold_their_text(value: Seq<char>)
    ensures
        label_read(label_quoted(value)) == Some(value),
    decreases value.len(),
{
    lemma_c_literals();
    if value.len() == 0 {
        assert(c_quoted(value) =~= Seq::<char>::empty());
        assert(label_quoted(value) =~= Seq::<char>::empty());
        assert(value =~= Seq::<char>::empty());
    } else {
        let rest = value.skip(1);
        labels_hold_their_text(rest);
        assert(value =~= seq![value[0]] + rest);
        lemma_label_step(value[0], rest);
        let s = label_quoted(value);
        let piece = label_piece(value[0]);
        assert(s =~= piece + label_quoted(rest));
        if piece.len() == 2 {
            assert(s[0] == '\\' && s[1] == piece[1]);
            assert(s.skip(2) =~= label_quoted(rest));
        } else {
            assert(s[0] == value[0]);
            assert(s.skip(1) =~= label_quoted(rest));
        }
    }
}

proof fn lemma_replaced_without(s: Seq<char>, c: char, to: Seq<char>, d: char)
    requires
        !to.contains(d),
        d == c || !s.contains(d),
    ensures
        !replaced(s, seq![c], to).contains(d),
    decreases s.len(),
{
    if s.len() > 0 {
        let rest = s.skip(1);
        lemma_starts(s, c);
        assert(d == c || !rest.contains(d)) by {
            if rest.contains(d) {
                let k = choose|k: int| 0 <= k < rest.len() && rest[k] == d;
                assert(s[k + 1] == d);
            }
        }
        lemma_replaced_without(rest, c, to, d);
        let tail = replaced(rest, seq![c], to);
        let out = replaced(s, seq![c], to);
        assert(s.contains(s[0]));
        if out.contains(d) {
            let k = choose|k: int| 0 <= k < out.len() && out[k] == d;
            if s[0] == c {
                assert(out == to + tail);
                if k < to.len() {
                    assert(to[k] == d);
                } else {
                    assert(tail[k - to.len()] == d);
                }
            } else {
                assert(out == seq![s[0]] + tail);
                if k > 0 {
                    assert(tail[k - 1] == d);
                }
            }
        }
    }
}

/// A text that was escaped for HTML opens no tag and ends no attribute.
pub proof fn escaped_text_is_no_markup(value: Seq<char>)
    ensures
        !html_quoted(value).contains('<'),
        !html_quoted(value).contains('>'),
        !html_quoted(value).contains('"'),
{
    reveal_strlit("&");
    reveal_strlit("<");
    reveal_strlit(">");
    reveal_strlit("\"");
    reveal_strlit("&amp;");
    reveal_strlit("&lt;");
    reveal_strlit("&gt;");
    reveal_strlit("&quot;");
    assert("&"@ =~= seq!['&']);
    assert("<"@ =~= seq!['<']);
    assert(">"@ =~= seq!['>']);
    assert("\""@ =~= seq!['"']);
    let a = replaced(value, seq!['&'], "&amp;"@);
    let b = replaced(a, seq!['<'], "&lt;"@);
    let c = replaced(b, seq!['>'], "&gt;"@);
    lemma_replaced_without(a, '<', "&lt;"@, '<');
    lemma_replaced_without(b, '>', "&gt;"@, '<');
    lemma_replaced_without(c, '"', "&quot;"@, '<');
    lemma_replaced_without(b, '>', "&gt;"@, '>');
    lemma_replaced_without(c, '"', "&quot;"@, '>');
    lemma_replaced_without(c, '"', "&quot;"@, '"');
}

} // verus!
