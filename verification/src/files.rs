//! Source files: their paths, their languages and the module names by which
//! other files may import them.

use vstd::prelude::*;
use vstd::slice::{slice_subrange, slice_to_vec};

use crate::components::{components, components_of, trimmed_path, trimmed_path_of};
use crate::paths::settled_name;
use crate::text::{
    chars_of, eq_chars, eq_str_chars, has_char, lower_chars, lowered, push_chars, string_of, texts,
    views,
};

verus! {

/// One file to link.
#[derive(Debug)]
pub struct SourceFile {
    pub path: String,
    pub content: String,
}

/// Position of the last `c` in `s`, or -1.
pub open spec fn last_position(s: Seq<char>, c: char) -> int
    decreases s.len(),
{
    if s.len() == 0 {
        -1
    } else if s.last() == c {
        s.len() - 1
    } else {
        last_position(s.drop_last(), c)
    }
}

pub proof fn lemma_last_position(s: Seq<char>, c: char)
    ensures
        -1 <= last_position(s, c) < s.len(),
        last_position(s, c) >= 0 ==> s[last_position(s, c)] == c,
        forall|j: int| last_position(s, c) < j < s.len() ==> #[trigger] s[j] != c,
    decreases s.len(),
{
    if s.len() > 0 && s.last() != c {
        lemma_last_position(s.drop_last(), c);
        assert forall|j: int| last_position(s, c) < j < s.len() implies #[trigger] s[j] != c by {
            if j < s.len() - 1 {
                assert(s.drop_last()[j] == s[j]);
            }
        }
    }
}

/// What stands behind the last slash of a text.
pub open spec fn last_part(path: Seq<char>) -> Seq<char> {
    path.skip(last_position(path, '/') + 1)
}

/// The name that ends a list of components: nothing, where they end at the root
/// or lead back.
pub open spec fn name_of_last(parts: Seq<Seq<char>>) -> Seq<char> {
    if parts.len() > 0 && settled_name(parts.last()) {
        parts.last()
    } else {
        Seq::empty()
    }
}

/// The name of the file that a path leads to: nothing, where it leads to none.
pub open spec fn file_name(path: Seq<char>) -> Seq<char> {
    name_of_last(components(path))
}

/// Where the extension of a file name begins, or -1: a leading dot begins none.
pub open spec fn dot_position(name: Seq<char>) -> int {
    if last_position(name, '.') <= 0 {
        -1
    } else {
        last_position(name, '.')
    }
}

/// The extension of a path, without its dot.
pub open spec fn extension(path: Seq<char>) -> Option<Seq<char>> {
    let name = file_name(path);
    if dot_position(name) < 0 {
        None
    } else {
        Some(name.skip(dot_position(name) + 1))
    }
}

/// The file name of a path, without its extension.
pub open spec fn stem(path: Seq<char>) -> Seq<char> {
    let name = file_name(path);
    if dot_position(name) < 0 {
        name
    } else {
        name.take(dot_position(name))
    }
}

/// Whether a path names an O document.
pub open spec fn is_o_path(path: Seq<char>) -> bool {
    extension(path) == Some(seq!['O'])
}

/// Position of the last `c` in `s`.
pub fn find_last(s: &[char], c: char) -> (r: Option<usize>)
    ensures
        r is None ==> last_position(s@, c) == -1,
        r matches Some(k) ==> last_position(s@, c) == k && k < s@.len(),
{
    let mut i: usize = s.len();
    assert(s@.take(i as int) =~= s@);
    while i > 0
        invariant
            i <= s@.len(),
            last_position(s@, c) == last_position(s@.take(i as int), c),
        decreases i,
    {
        assert(s@.take(i as int).last() == s@[i - 1]);
        if s[i - 1] == c {
            return Some(i - 1);
        }
        assert(s@.take(i as int).drop_last() =~= s@.take(i - 1));
        i -= 1;
    }
    assert(s@.take(0).len() == 0);
    None
}

/// What stands behind the last slash of a text.
pub fn last_part_of(path: &[char]) -> (r: &[char])
    ensures
        r@ == last_part(path@),
{
    let n: usize = path.len();
    let from: usize = match find_last(path, '/') {
        None => 0,
        Some(k) => k + 1,
    };
    slice_subrange(path, from, n)
}

/// Whether a component is a name: not the root, `.` or `..`.
fn is_name(part: &[char]) -> (r: bool)
    ensures
        r == settled_name(part@),
{
    if part.len() == 0 {
        return false;
    }
    if part.len() == 1 && part[0] == '.' {
        assert(part@ =~= seq!['.']);
        return false;
    }
    if part.len() == 2 && part[0] == '.' && part[1] == '.' {
        assert(part@ =~= seq!['.', '.']);
        return false;
    }
    assert(part@ == seq!['.'] ==> part@[0] == '.');
    assert(part@ == seq!['.', '.'] ==> part@[0] == '.' && part@[1] == '.');
    !has_char(part, '/')
}

/// The name of the file that a path leads to: nothing, where it leads to none.
pub fn file_name_of(path: &[char]) -> (r: Vec<char>)
    ensures
        r@ == file_name(path@),
{
    let parts = components_of(path);
    let n: usize = parts.len();
    assert(texts(parts@).len() == n);
    if n > 0 {
        assert(texts(parts@).last() == parts@[n - 1]@);
        if is_name(parts[n - 1].as_slice()) {
            return slice_to_vec(parts[n - 1].as_slice());
        }
    }
    let none: Vec<char> = Vec::new();
    assert(none@ =~= file_name(path@));
    none
}

fn dot_of(name: &[char]) -> (r: Option<usize>)
    ensures
        r is None ==> dot_position(name@) == -1,
        r matches Some(k) ==> dot_position(name@) == k && k < name@.len(),
{
    match find_last(name, '.') {
        None => None,
        Some(k) => if k == 0 {
            None
        } else {
            Some(k)
        },
    }
}

/// The extension of a path.
pub fn extension_of(path: &[char]) -> (r: Option<Vec<char>>)
    ensures
        r is Some <==> extension(path@) is Some,
        r matches Some(ext) ==> extension(path@) == Some(ext@),
{
    let name = file_name_of(path);
    let n: usize = name.len();
    match dot_of(name.as_slice()) {
        None => None,
        Some(k) => {
            let ext = slice_to_vec(slice_subrange(name.as_slice(), k + 1, n));
            assert(ext@ =~= name@.skip(k + 1));
            Some(ext)
        },
    }
}

/// The file name of a path, without its extension.
pub fn stem_of(path: &[char]) -> (r: Vec<char>)
    ensures
        r@ == stem(path@),
{
    let name = file_name_of(path);
    match dot_of(name.as_slice()) {
        None => name,
        Some(k) => slice_to_vec(slice_subrange(name.as_slice(), 0, k)),
    }
}

/// Whether a path ends in the name of a file.
pub open spec fn names_file(path: Seq<char>) -> bool {
    file_name(path).len() > 0
}

/// A path that ends in a file's name, with another extension or its first.
pub open spec fn with_extension(path: Seq<char>, extension: Seq<char>) -> Seq<char> {
    let whole = trimmed_path(path);
    whole.take(last_position(whole, '/') + 1) + stem(path) + "."@ + extension
}

/// Whether a path ends in the name of a file.
pub fn names_a_file(path: &[char]) -> (r: bool)
    ensures
        r == names_file(path@),
{
    file_name_of(path).len() > 0
}

/// A path that ends in a file's name, with another extension or its first.
pub fn replace_extension(path: &[char], extension: &str) -> (out: String)
    ensures
        out@ == with_extension(path@, extension@),
{
    let whole = trimmed_path_of(path);
    proof {
        lemma_last_position(whole@, '/');
    }
    let from: usize = whole.len() - last_part_of(whole).len();
    let mut out = string_of(whole, 0, from);
    assert(out@ =~= whole@.take(from as int));
    let name = stem_of(path);
    out.append(string_of(name.as_slice(), 0, name.len()).as_str());
    out.append(".");
    out.append(extension);
    assert(out@ =~= with_extension(path@, extension@));
    out
}

/// Whether a path names an O document.
pub fn is_o_file(path: &[char]) -> (r: bool)
    ensures
        r == is_o_path(path@),
{
    match extension_of(path) {
        None => false,
        Some(ext) => {
            if ext.len() == 1 && ext[0] == 'O' {
                assert(ext@ =~= seq!['O']);
                true
            } else {
                assert(ext@ != seq!['O']) by {
                    if ext@ == seq!['O'] {
                        assert(ext@[0] == 'O');
                    }
                }
                false
            }
        },
    }
}

/// The value of the last pair with the given key.
pub open spec fn lookup(pairs: Seq<(Seq<char>, Seq<char>)>, key: Seq<char>) -> Option<Seq<char>>
    decreases pairs.len(),
{
    if pairs.len() == 0 {
        None
    } else if pairs.last().0 == key {
        Some(pairs.last().1)
    } else {
        lookup(pairs.drop_last(), key)
    }
}

/// Which backend runs files of which extension. Keys are small-letter
/// extensions without their dot; a later entry overrides an earlier one.
#[derive(Debug)]
pub struct ExtensionMap {
    entries: Vec<(String, String)>,
}

impl ExtensionMap {
    /// The entries, in the order in which they were made.
    pub closed spec fn pairs(self) -> Seq<(Seq<char>, Seq<char>)> {
        self.entries@.map_values(|entry: (String, String)| (entry.0@, entry.1@))
    }

    pub fn new() -> (map: ExtensionMap)
        ensures
            map.pairs() == Seq::<(Seq<char>, Seq<char>)>::empty(),
    {
        let map = ExtensionMap { entries: Vec::new() };
        assert(map.pairs() =~= Seq::empty());
        map
    }

    /// Maps an extension to a backend.
    pub fn insert(&mut self, extension: &str, backend: &str)
        ensures
            final(self).pairs() == old(self).pairs().push((extension@, backend@)),
    {
        self.entries.push((extension.to_owned(), backend.to_owned()));
        assert(self.pairs() =~= old(self).pairs().push((extension@, backend@)));
    }

    fn find(&self, key: &[char]) -> (r: Option<String>)
        ensures
            r is Some <==> lookup(self.pairs(), key@) is Some,
            r matches Some(backend) ==> lookup(self.pairs(), key@) == Some(backend@),
    {
        let mut i: usize = self.entries.len();
        let ghost all = self.pairs();
        assert(all.take(i as int) =~= all);
        while i > 0
            invariant
                all == self.pairs(),
                i <= all.len(),
                all.len() == self.entries@.len(),
                lookup(all, key@) == lookup(all.take(i as int), key@),
            decreases i,
        {
            let entry = &self.entries[i - 1];
            assert(all.take(i as int).last() == (entry.0@, entry.1@));
            if eq_str_chars(entry.0.as_str(), key) {
                return Some(entry.1.clone());
            }
            assert(all.take(i as int).drop_last() =~= all.take(i - 1));
            i -= 1;
        }
        assert(all.take(0).len() == 0);
        None
    }

    /// The backend of an extension.
    pub fn get(&self, extension: &str) -> (r: Option<String>)
        ensures
            r is Some <==> lookup(self.pairs(), extension@) is Some,
            r matches Some(backend) ==> lookup(self.pairs(), extension@) == Some(backend@),
    {
        let key = chars_of(extension);
        self.find(key.as_slice())
    }
}

/// The built-in extensions and their backends.
pub open spec fn default_pairs() -> Seq<(Seq<char>, Seq<char>)> {
    seq![
        ("py"@, "python"@), ("sh"@, "bash"@), ("bash"@, "bash"@), ("html"@, "html"@),
        ("htm"@, "html"@), ("tex"@, "latex"@), ("md"@, "markdown"@),
        ("markdown"@, "markdown"@), ("rs"@, "rust"@), ("rkt"@, "racket"@), ("nix"@, "nix"@),
        ("txt"@, "text"@), ("cs"@, "csharp"@), ("c"@, "c"@), ("cc"@, "cpp"@), ("cpp"@, "cpp"@),
        ("cxx"@, "cpp"@), ("h"@, "text"@), ("hpp"@, "text"@), ("hs"@, "haskell"@),
        ("lisp"@, "lisp"@), ("cl"@, "common_lisp"@), ("sql"@, "sql"@), ("rb"@, "ruby"@),
        ("m"@, "matlab"@), ("wl"@, "mathematica"@), ("wat"@, "webassembly"@),
        ("java"@, "java"@), ("js"@, "javascript"@), ("mjs"@, "javascript"@),
        ("cjs"@, "javascript"@), ("ml"@, "ocaml"@),
    ]
}

/// The built-in extensions and their backends.
pub fn default_extension_map() -> (map: ExtensionMap)
    ensures
        map.pairs() == default_pairs(),
{
    let entries: Vec<(String, String)> = vec![
        ("py".to_owned(), "python".to_owned()), ("sh".to_owned(), "bash".to_owned()),
        ("bash".to_owned(), "bash".to_owned()), ("html".to_owned(), "html".to_owned()),
        ("htm".to_owned(), "html".to_owned()), ("tex".to_owned(), "latex".to_owned()),
        ("md".to_owned(), "markdown".to_owned()),
        ("markdown".to_owned(), "markdown".to_owned()), ("rs".to_owned(), "rust".to_owned()),
        ("rkt".to_owned(), "racket".to_owned()), ("nix".to_owned(), "nix".to_owned()),
        ("txt".to_owned(), "text".to_owned()), ("cs".to_owned(), "csharp".to_owned()),
        ("c".to_owned(), "c".to_owned()), ("cc".to_owned(), "cpp".to_owned()),
        ("cpp".to_owned(), "cpp".to_owned()), ("cxx".to_owned(), "cpp".to_owned()),
        ("h".to_owned(), "text".to_owned()), ("hpp".to_owned(), "text".to_owned()),
        ("hs".to_owned(), "haskell".to_owned()), ("lisp".to_owned(), "lisp".to_owned()),
        ("cl".to_owned(), "common_lisp".to_owned()), ("sql".to_owned(), "sql".to_owned()),
        ("rb".to_owned(), "ruby".to_owned()), ("m".to_owned(), "matlab".to_owned()),
        ("wl".to_owned(), "mathematica".to_owned()),
        ("wat".to_owned(), "webassembly".to_owned()), ("java".to_owned(), "java".to_owned()),
        ("js".to_owned(), "javascript".to_owned()),
        ("mjs".to_owned(), "javascript".to_owned()),
        ("cjs".to_owned(), "javascript".to_owned()), ("ml".to_owned(), "ocaml".to_owned()),
    ];
    let map = ExtensionMap { entries };
    assert(map.pairs() =~= default_pairs());
    map
}

/// The backend of a file: by its extension, `text` where that is unknown or
/// missing, and nothing for an O document, which is linked as it stands.
pub open spec fn backend_of(path: Seq<char>, pairs: Seq<(Seq<char>, Seq<char>)>) -> Seq<char> {
    match extension(path) {
        None => "text"@,
        Some(ext) => if ext == seq!['O'] {
            Seq::empty()
        } else {
            match lookup(pairs, lowered(ext)) {
                Some(backend) => backend,
                None => "text"@,
            }
        },
    }
}

/// Resolves a file path to its backend language.
pub fn file_backend(path: &str, ext_map: &ExtensionMap) -> (backend: String)
    ensures
        backend@ == backend_of(path@, ext_map.pairs()),
{
    let chars = chars_of(path);
    match extension_of(chars.as_slice()) {
        None => "text".to_owned(),
        Some(ext) => {
            if is_o_file(chars.as_slice()) {
                return String::new();
            }
            let key = lower_chars(ext.as_slice());
            match ext_map.find(key.as_slice()) {
                Some(backend) => backend,
                None => "text".to_owned(),
            }
        },
    }
}

/// The language group within which a file's imports are resolved: its backend,
/// except that C, C++ and their headers form one group.
pub open spec fn dependency_group_of(
    path: Seq<char>,
    pairs: Seq<(Seq<char>, Seq<char>)>,
) -> Seq<char> {
    let backend = backend_of(path, pairs);
    if backend == "c"@ || backend == "cpp"@ || header(path) {
        "c-family"@
    } else {
        backend
    }
}

/// Whether a path names a C or C++ header.
pub open spec fn header(path: Seq<char>) -> bool {
    match extension(path) {
        None => false,
        Some(ext) => {
            let e = lowered(ext);
            e == seq!['h'] || e == seq!['h', 'h'] || e == seq!['h', 'p', 'p'] || e == seq![
                'h',
                'x',
                'x',
            ]
        },
    }
}

/// The language group within which a file's imports are resolved.
pub fn dependency_group(path: &str, ext_map: &ExtensionMap) -> (group: String)
    ensures
        group@ == dependency_group_of(path@, ext_map.pairs()),
{
    let backend = file_backend(path, ext_map);
    let chars = chars_of(path);
    let is_header: bool = match extension_of(chars.as_slice()) {
        None => false,
        Some(ext) => {
            let e = lower_chars(ext.as_slice());
            let h: Vec<char> = vec!['h'];
            let hh: Vec<char> = vec!['h', 'h'];
            let hpp: Vec<char> = vec!['h', 'p', 'p'];
            let hxx: Vec<char> = vec!['h', 'x', 'x'];
            assert(h@ =~= seq!['h']);
            assert(hh@ =~= seq!['h', 'h']);
            assert(hpp@ =~= seq!['h', 'p', 'p']);
            assert(hxx@ =~= seq!['h', 'x', 'x']);
            eq_chars(e.as_slice(), h.as_slice()) || eq_chars(e.as_slice(), hh.as_slice())
                || eq_chars(e.as_slice(), hpp.as_slice()) || eq_chars(e.as_slice(), hxx.as_slice())
        },
    };
    if *backend.as_str() == *"c" || *backend.as_str() == *"cpp" || is_header {
        "c-family".to_owned()
    } else {
        backend
    }
}

/// Whether a directory is a source root, which no module name crosses.
pub open spec fn source_root(name: Seq<char>) -> bool {
    ||| name == "src"@
    ||| name == "lib"@
    ||| name == "source"@
    ||| name == "tests"@
    ||| !settled_name(name)
    ||| name[0] == '.'
}

/// The dotted module names that the directories above a module give it.
pub open spec fn dotted(directories: Seq<Seq<char>>, suffix: Seq<char>) -> Seq<Seq<char>>
    decreases directories.len(),
{
    if directories.len() == 0 || source_root(directories.last()) {
        Seq::empty()
    } else {
        let longer = directories.last() + seq!['.'] + suffix;
        seq![longer] + dotted(directories.drop_last(), longer)
    }
}

/// The module names under which a file can be imported: `utils`, `pkg.utils`
/// and so on up to the source root.
pub open spec fn stems(path: Seq<char>) -> Seq<Seq<char>> {
    if stem(path) == "__init__"@ || file_name(path).len() == 0 {
        Seq::empty()
    } else {
        seq![stem(path)] + dotted(components(path).drop_last(), stem(path))
    }
}

/// The module names under which a file can be imported.
pub fn module_stems(path: &str) -> (out: Vec<String>)
    ensures
        views(out@) == stems(path@),
{
    let chars = chars_of(path);
    let own = stem_of(chars.as_slice());
    let mut out: Vec<String> = Vec::new();
    assert(views(out@) =~= Seq::empty());
    if !names_a_file(chars.as_slice()) || eq_str_chars("__init__", own.as_slice()) {
        return out;
    }
    let text = string_of(own.as_slice(), 0, own.len());
    assert(text@ =~= own@);
    out.push(text);
    assert(views(out@) =~= seq![own@]);
    let parts = components_of(chars.as_slice());
    let ghost all = texts(parts@);
    let mut suffix: Vec<char> = own;
    let mut n: usize = parts.len() - 1;
    assert(all.take(n as int) =~= all.drop_last());
    while n > 0
        invariant
            all == texts(parts@),
            n <= parts@.len(),
            views(out@) + dotted(all.take(n as int), suffix@) == stems(path@),
        decreases n,
    {
        let part = parts[n - 1].as_slice();
        let ghost above = all.take(n as int);
        assert(above.last() == part@);
        assert(above.drop_last() =~= all.take(n - 1));
        if !is_name(part) || part[0] == '.' || eq_str_chars("src", part) || eq_str_chars(
            "lib",
            part,
        ) || eq_str_chars("source", part) || eq_str_chars("tests", part) {
            assert(dotted(above, suffix@) =~= Seq::empty());
            assert(views(out@) =~= stems(path@));
            return out;
        }
        let mut longer: Vec<char> = Vec::new();
        push_chars(&mut longer, part);
        longer.push('.');
        push_chars(&mut longer, suffix.as_slice());
        assert(longer@ =~= part@ + seq!['.'] + suffix@);
        let text = string_of(longer.as_slice(), 0, longer.len());
        assert(text@ =~= longer@);
        let ghost before = views(out@);
        out.push(text);
        assert(views(out@) =~= before.push(longer@));
        assert(before + (seq![longer@] + dotted(above.drop_last(), longer@)) =~= before.push(longer@)
            + dotted(above.drop_last(), longer@));
        suffix = longer;
        n -= 1;
    }
    assert(dotted(all.take(0), suffix@) =~= Seq::empty());
    assert(views(out@) =~= stems(path@));
    out
}

} // verus!
