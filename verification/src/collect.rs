//! Which files of the inputs are linked, and which paths are passed over and
//! why.

use vstd::prelude::*;

use crate::components::{components, components_of, same_components};
use crate::sorting::places;
use crate::text::{
    ascending, chars_of, decimal, insert_ascending, members, push_decimal, starts_with,
    starts_with_chars, texts, views,
};

verus! {

/// A path that was passed over, and why.
#[derive(Debug)]
pub struct SkippedPath {
    pub path: String,
    pub reason: String,
}

/// What was found in the inputs.
#[derive(Debug)]
pub struct CollectedFiles {
    pub files: Vec<String>,
    pub marker_root: String,
    pub skipped: Vec<SkippedPath>,
}

/// Paths that were passed over, and why.
pub open spec fn skips(list: Seq<SkippedPath>) -> Seq<(Seq<char>, Seq<char>)> {
    list.map_values(|s: SkippedPath| (s.path@, s.reason@))
}

/// The reasons for which paths were passed over.
pub open spec fn reasons(list: Seq<SkippedPath>) -> Seq<Seq<char>> {
    list.map_values(|s: SkippedPath| s.reason@)
}

/// How often a text stands in a list.
pub open spec fn occurrences(list: Seq<Seq<char>>, text: Seq<char>) -> nat
    decreases list.len(),
{
    if list.len() == 0 {
        0
    } else {
        occurrences(list.drop_last(), text) + if list.last() == text {
            1nat
        } else {
            0nat
        }
    }
}

/// The line on one path that was passed over.
pub open spec fn skip_line(path: Seq<char>, reason: Seq<char>) -> Seq<char> {
    "warning: skipped "@ + path + " ("@ + reason + ")"@
}

/// The line on all paths that were passed over for one reason.
pub open spec fn reason_line(reason: Seq<char>, count: nat) -> Seq<char> {
    "warning: skipped "@ + decimal(count) + (if count == 1 {
        " path ("@
    } else {
        " paths ("@
    }) + reason + ")"@
}

/// The lines on the given reasons.
pub open spec fn reason_lines(each: Seq<Seq<char>>, all: Seq<Seq<char>>) -> Seq<Seq<char>> {
    each.map_values(|reason: Seq<char>| reason_line(reason, occurrences(all, reason)))
}

/// The last line of a report.
pub open spec fn total_line(selected: nat, skipped: nat) -> Seq<char> {
    "o-link scan: "@ + decimal(selected) + " selected, "@ + decimal(skipped) + " skipped"@
}

fn count_reason(skipped: &[SkippedPath], reason: &str) -> (n: usize)
    ensures
        n == occurrences(reasons(skipped@), reason@),
{
    let ghost all = reasons(skipped@);
    let mut n: usize = 0;
    let mut i: usize = 0;
    assert(all.take(0).len() == 0);
    while i < skipped.len()
        invariant
            all == reasons(skipped@),
            i <= skipped@.len(),
            n <= i,
            n == occurrences(all.take(i as int), reason@),
        decreases skipped@.len() - i,
    {
        assert(all[i as int] == skipped@[i as int].reason@);
        assert(all.take(i + 1).drop_last() =~= all.take(i as int));
        assert(all.take(i + 1).last() == all[i as int]);
        if *skipped[i].reason.as_str() == *reason {
            n += 1;
        }
        i += 1;
    }
    assert(all.take(i as int) =~= all);
    n
}

fn distinct_reasons(skipped: &[SkippedPath]) -> (out: Vec<String>)
    ensures
        ascending(views(out@)),
        members(out@) == reasons(skipped@).to_set(),
{
    let ghost all = reasons(skipped@);
    let mut out: Vec<String> = Vec::new();
    let mut i: usize = 0;
    assert(members(out@) =~= all.take(0).to_set());
    while i < skipped.len()
        invariant
            all == reasons(skipped@),
            i <= skipped@.len(),
            ascending(views(out@)),
            members(out@) == all.take(i as int).to_set(),
        decreases skipped@.len() - i,
    {
        let ghost before = members(out@);
        insert_ascending(&mut out, skipped[i].reason.clone());
        proof {
            let now = all.take(i + 1);
            assert(all[i as int] == skipped@[i as int].reason@);
            assert(now =~= all.take(i as int).push(all[i as int]));
            assert forall|t: Seq<char>| members(out@).contains(t) == now.to_set().contains(t) by {
                if now.contains(t) {
                    let k = choose|k: int| 0 <= k < now.len() && now[k] == t;
                    if k < i {
                        assert(all.take(i as int)[k] == t);
                    }
                }
                if all.take(i as int).contains(t) {
                    let k = choose|k: int| 0 <= k < i && all.take(i as int)[k] == t;
                    assert(now[k] == t);
                }
                assert(now[i as int] == all[i as int]);
            }
            assert(members(out@) =~= now.to_set());
        }
        i += 1;
    }
    assert(all.take(i as int) =~= all);
    out
}

impl CollectedFiles {
    /// The lines of a report in which every path stands.
    pub open spec fn full_report(self) -> Seq<Seq<char>> {
        skips(self.skipped@).map_values(|s: (Seq<char>, Seq<char>)| skip_line(s.0, s.1)).push(
            total_line(self.files@.len(), self.skipped@.len()),
        )
    }

    /// The lines of a report in which paths are grouped by the given reasons.
    pub open spec fn grouped_report(self, each: Seq<Seq<char>>) -> Seq<Seq<char>> {
        reason_lines(each, reasons(self.skipped@)).push(
            total_line(self.files@.len(), self.skipped@.len()),
        )
    }

    fn skip_lines(&self) -> (out: Vec<String>)
        ensures
            views(out@) == skips(self.skipped@).map_values(
                |s: (Seq<char>, Seq<char>)| skip_line(s.0, s.1),
            ),
    {
        let ghost expected = skips(self.skipped@).map_values(
            |s: (Seq<char>, Seq<char>)| skip_line(s.0, s.1),
        );
        let mut out: Vec<String> = Vec::new();
        let mut i: usize = 0;
        assert(views(out@) =~= expected.take(0));
        while i < self.skipped.len()
            invariant
                i <= self.skipped@.len(),
                expected == skips(self.skipped@).map_values(
                    |s: (Seq<char>, Seq<char>)| skip_line(s.0, s.1),
                ),
                views(out@) == expected.take(i as int),
            decreases self.skipped@.len() - i,
        {
            let item = &self.skipped[i];
            let mut line = "warning: skipped ".to_owned();
            line.append(item.path.as_str());
            line.append(" (");
            line.append(item.reason.as_str());
            line.append(")");
            let ghost before = views(out@);
            assert(expected[i as int] == skip_line(item.path@, item.reason@));
            assert(line@ == expected[i as int]);
            out.push(line);
            assert(views(out@) =~= before.push(expected[i as int]));
            assert(before.push(expected[i as int]) =~= expected.take(i + 1));
            i += 1;
        }
        assert(expected.take(i as int) =~= expected);
        out
    }

    fn grouped_lines(&self, each: &[String]) -> (out: Vec<String>)
        ensures
            views(out@) == reason_lines(views(each@), reasons(self.skipped@)),
    {
        let ghost expected = reason_lines(views(each@), reasons(self.skipped@));
        let mut out: Vec<String> = Vec::new();
        let mut i: usize = 0;
        assert(views(out@) =~= expected.take(0));
        while i < each.len()
            invariant
                i <= each@.len(),
                expected == reason_lines(views(each@), reasons(self.skipped@)),
                views(out@) == expected.take(i as int),
            decreases each@.len() - i,
        {
            let reason = each[i].as_str();
            let count: usize = count_reason(self.skipped.as_slice(), reason);
            let mut line = "warning: skipped ".to_owned();
            push_decimal(&mut line, count as u64);
            if count == 1 {
                line.append(" path (");
            } else {
                line.append(" paths (");
            }
            line.append(reason);
            line.append(")");
            let ghost before = views(out@);
            assert(expected[i as int] == reason_line(reason@, count as nat));
            assert(line@ == expected[i as int]);
            out.push(line);
            assert(views(out@) =~= before.push(expected[i as int]));
            assert(before.push(expected[i as int]) =~= expected.take(i + 1));
            i += 1;
        }
        assert(expected.take(i as int) =~= expected);
        out
    }

    /// The report on what was found: every path that was passed over, or how
    /// many were for each reason, the reasons in ascending order.
    pub fn report_lines(&self, verbose_skips: bool) -> (out: Vec<String>)
        ensures
            verbose_skips ==> views(out@) == self.full_report(),
            !verbose_skips ==> exists|each: Seq<Seq<char>>|
                ascending(each) && each.to_set() == reasons(self.skipped@).to_set() && views(out@)
                    == #[trigger] self.grouped_report(each),
    {
        let mut out = if verbose_skips {
            self.skip_lines()
        } else {
            Vec::new()
        };
        let ghost mut each: Seq<Seq<char>> = Seq::empty();
        if !verbose_skips {
            let list = distinct_reasons(self.skipped.as_slice());
            proof {
                each = views(list@);
            }
            out = self.grouped_lines(list.as_slice());
        }
        let mut total = "o-link scan: ".to_owned();
        push_decimal(&mut total, self.files.len() as u64);
        total.append(" selected, ");
        push_decimal(&mut total, self.skipped.len() as u64);
        total.append(" skipped");
        let ghost before = views(out@);
        assert(total@ == total_line(self.files@.len(), self.skipped@.len()));
        let ghost last = total@;
        out.push(total);
        assert(views(out@) =~= before.push(last));
        if !verbose_skips {
            assert(views(out@) == self.grouped_report(each));
        }
        out
    }
}

/// Whether a text is the output of an earlier link, with or without a first
/// line that makes it executable.
pub open spec fn generated(text: Seq<char>) -> bool {
    let body = if starts_with(text, "#!/usr/bin/env o\r\n"@) {
        text.skip("#!/usr/bin/env o\r\n"@.len() as int)
    } else if starts_with(text, "#!/usr/bin/env o\n"@) {
        text.skip("#!/usr/bin/env o\n"@.len() as int)
    } else {
        text
    };
    starts_with(body, "# Linked by o-link"@) || starts_with(body, "# Ostadix-lang lifted project"@)
}

/// Whether a text is the output of an earlier link, with or without a first
/// line that makes it executable.
pub fn is_generated_olink_output(text: &str) -> (r: bool)
    ensures
        r == generated(text@),
{
    let chars = chars_of(text);
    let carriage = chars_of("#!/usr/bin/env o\r\n");
    let plain = chars_of("#!/usr/bin/env o\n");
    let from: usize = if starts_with_chars(chars.as_slice(), carriage.as_slice()) {
        carriage.len()
    } else if starts_with_chars(chars.as_slice(), plain.as_slice()) {
        plain.len()
    } else {
        0
    };
    let body = vstd::slice::slice_subrange(chars.as_slice(), from, chars.len());
    assert(body@ =~= chars@.skip(from as int));
    assert(chars@.skip(0) =~= chars@);
    starts_with_chars(body, chars_of("# Linked by o-link").as_slice()) || starts_with_chars(
        body,
        chars_of("# Ostadix-lang lifted project").as_slice(),
    )
}

/// An entry of a directory.
pub struct Entry {
    pub path: String,
    pub name: String,
    pub is_dir: bool,
    pub is_file: bool,
    /// The ignore file that leaves the entry out, if one does.
    pub ignored_by: Option<String>,
}

/// What is done about an entry.
#[derive(Debug)]
pub enum EntryAction {
    /// It is left out, and all below it with it, for the given reason.
    LeaveOut(String),
    /// Its own entries are walked.
    Walk,
    /// It is read.
    Read,
    /// It is passed over.
    Pass,
}

/// What is done about an entry, the reason as a sequence.
pub ghost enum EntryFate {
    LeaveOut(Seq<char>),
    Walk,
    Read,
    Pass,
}

impl EntryAction {
    pub open spec fn fate(self) -> EntryFate {
        match self {
            EntryAction::LeaveOut(reason) => EntryFate::LeaveOut(reason@),
            EntryAction::Walk => EntryFate::Walk,
            EntryAction::Read => EntryFate::Read,
            EntryAction::Pass => EntryFate::Pass,
        }
    }
}

/// The directories that are never walked.
pub open spec fn excluded_directory(name: Seq<char>) -> bool {
    name == "target"@ || name == "node_modules"@ || name == "__pycache__"@ || name == ".git"@
}

impl Entry {
    /// What is done about an entry: what an ignore file leaves out comes first,
    /// then what is hidden, then the directories that are never walked.
    pub open spec fn fate(self) -> EntryFate {
        if self.ignored_by is Some {
            EntryFate::LeaveOut("ignored by "@ + self.ignored_by->Some_0@)
        } else if self.name@.len() > 0 && self.name@[0] == '.' {
            EntryFate::LeaveOut("hidden path"@)
        } else if self.is_dir {
            if excluded_directory(self.name@) {
                EntryFate::LeaveOut("built-in excluded directory"@)
            } else {
                EntryFate::Walk
            }
        } else if self.is_file {
            EntryFate::Read
        } else {
            EntryFate::Pass
        }
    }
}

/// The content of a file.
pub enum Content<'a> {
    Text(&'a str),
    NotText,
    /// It could not be read, for the given reason.
    Unreadable(&'a str),
}

/// A path by its components: two spellings of one path are one place.
pub type Place = Seq<Seq<char>>;

/// What has been collected so far.
pub ghost struct Collected {
    /// The file that is to be written, which is never linked into itself.
    pub output: Option<Place>,
    /// What tells each file apart from the others, whatever path leads to it.
    pub identities: Seq<Place>,
    /// The same of the directories that were walked.
    pub directories: Seq<Place>,
    pub files: Seq<Seq<char>>,
    pub skipped: Seq<(Seq<char>, Seq<char>)>,
}

impl Collected {
    /// Every file stands there once, and none is the output.
    pub open spec fn wf(self) -> bool {
        &&& self.identities.len() == self.files.len()
        &&& self.identities.no_duplicates()
        &&& self.directories.no_duplicates()
        &&& self.output is Some ==> !self.identities.contains(self.output->Some_0)
    }

    /// A path passed over.
    pub open spec fn passing(self, path: Seq<char>, reason: Seq<char>) -> Collected {
        Collected { skipped: self.skipped.push((path, reason)), ..self }
    }

    /// A file taken, unless it is the output or was taken before.
    pub open spec fn taking(self, path: Seq<char>, identity: Place) -> Collected {
        if self.output == Some(identity) {
            self.passing(path, "output file"@)
        } else if self.identities.contains(identity) {
            self.passing(path, "duplicate or symlink alias"@)
        } else {
            Collected {
                identities: self.identities.push(identity),
                files: self.files.push(path),
                ..self
            }
        }
    }

    /// A directory entered, unless it was entered before.
    pub open spec fn entering(self, path: Seq<char>, identity: Place) -> Collected {
        if self.directories.contains(identity) {
            self.passing(path, "directory already visited through another path"@)
        } else {
            Collected { directories: self.directories.push(identity), ..self }
        }
    }

    /// An entry judged.
    pub open spec fn judging(self, entry: Entry) -> Collected {
        match entry.fate() {
            EntryFate::LeaveOut(reason) => self.passing(entry.path@, reason),
            EntryFate::Pass => self.passing(entry.path@, "unsupported filesystem entry"@),
            EntryFate::Walk => self,
            EntryFate::Read => self,
        }
    }

    /// A file of a directory read.
    pub open spec fn reading(self, path: Seq<char>, identity: Place, content: Content) -> Collected {
        match content {
            Content::Text(text) => if generated(text@) {
                self.passing(path, "generated o-link output"@)
            } else {
                self.taking(path, identity)
            },
            Content::NotText => self.passing(path, "not UTF-8 text"@),
            Content::Unreadable(error) => self.passing(path, "read error: "@ + error@),
        }
    }
}

/// Whatever is offered, every file stands there once, no directory is walked
/// twice, and the output is never among the files.
pub proof fn collecting_keeps_files_distinct(
    c: Collected,
    path: Seq<char>,
    identity: Place,
    entry: Entry,
    content: Content,
)
    requires
        c.wf(),
    ensures
        c.taking(path, identity).wf(),
        c.entering(path, identity).wf(),
        c.judging(entry).wf(),
        c.reading(path, identity, content).wf(),
{
    let t = c.taking(path, identity);
    if c.output != Some(identity) && !c.identities.contains(identity) {
        let ids = c.identities.push(identity);
        assert forall|i: int, j: int| 0 <= i < ids.len() && 0 <= j < ids.len() && i != j implies ids[i]
            != ids[j] by {
            if i < c.identities.len() && j < c.identities.len() {
            } else if i < c.identities.len() {
                assert(c.identities[i] == ids[i]);
            } else {
                assert(c.identities[j] == ids[j]);
            }
        }
        if c.output is Some && ids.contains(c.output->Some_0) {
            let k = choose|k: int| 0 <= k < ids.len() && ids[k] == c.output->Some_0;
            if k < c.identities.len() {
                assert(c.identities[k] == c.output->Some_0);
            }
        }
        assert(t.wf());
    }
    if !c.directories.contains(identity) {
        let dirs = c.directories.push(identity);
        assert forall|i: int, j: int|
            0 <= i < dirs.len() && 0 <= j < dirs.len() && i != j implies dirs[i] != dirs[j] by {
            if i < c.directories.len() && j < c.directories.len() {
            } else if i < c.directories.len() {
                assert(c.directories[i] == dirs[i]);
            } else {
                assert(c.directories[j] == dirs[j]);
            }
        }
    }
}

/// A file that is offered again, under whatever path, is not linked again.
pub proof fn files_are_linked_once(
    c: Collected,
    first: Seq<char>,
    second: Seq<char>,
    identity: Place,
)
    ensures
        c.taking(first, identity).taking(second, identity).files == c.taking(first, identity).files,
{
    let t = c.taking(first, identity);
    if c.output != Some(identity) && !c.identities.contains(identity) {
        assert(t.identities.last() == identity);
        assert(t.identities.contains(identity));
    }
}

/// A directory that is reached again, under whatever path, is not entered again.
pub proof fn directories_are_walked_once(
    c: Collected,
    first: Seq<char>,
    second: Seq<char>,
    identity: Place,
)
    ensures
        c.entering(first, identity).entering(second, identity).directories == c.entering(
            first,
            identity,
        ).directories,
{
    let t = c.entering(first, identity);
    if !c.directories.contains(identity) {
        assert(t.directories.last() == identity);
        assert(t.directories.contains(identity));
    }
}

/// Every file that is read is either linked or reported as passed over.
pub proof fn nothing_is_dropped_silently(
    c: Collected,
    path: Seq<char>,
    identity: Place,
    content: Content,
)
    ensures
        c.reading(path, identity, content).files.len() + c.reading(
            path,
            identity,
            content,
        ).skipped.len() == c.files.len() + c.skipped.len() + 1,
{
}

/// Collects the files of the inputs.
#[derive(Debug)]
pub struct Collector {
    pub output: Option<Vec<Vec<char>>>,
    pub identities: Vec<Vec<Vec<char>>>,
    pub directories: Vec<Vec<Vec<char>>>,
    pub files: Vec<String>,
    pub skipped: Vec<SkippedPath>,
}

impl View for Collector {
    type V = Collected;

    open spec fn view(&self) -> Collected {
        Collected {
            output: match self.output {
                Some(place) => Some(texts(place@)),
                None => None,
            },
            identities: places(self.identities@),
            directories: places(self.directories@),
            files: views(self.files@),
            skipped: skips(self.skipped@),
        }
    }
}

fn holds(list: &Vec<Vec<Vec<char>>>, place: &Vec<Vec<char>>) -> (r: bool)
    ensures
        r == places(list@).contains(texts(place@)),
{
    let mut i: usize = 0;
    while i < list.len()
        invariant
            i <= list@.len(),
            forall|j: int| 0 <= j < i ==> places(list@)[j] != texts(place@),
        decreases list@.len() - i,
    {
        assert(places(list@)[i as int] == texts(list@[i as int]@));
        if same_components(list[i].as_slice(), place.as_slice()) {
            return true;
        }
        i += 1;
    }
    false
}

impl Collector {
    pub fn new(output: Option<String>) -> (c: Collector)
        ensures
            c@.wf(),
            c@.output == (match output {
                Some(text) => Some(components(text@)),
                None => None,
            }),
            c@.files.len() == 0,
            c@.directories.len() == 0,
            c@.skipped.len() == 0,
    {
        let place = match output {
            Some(text) => Some(components_of(chars_of(text.as_str()).as_slice())),
            None => None,
        };
        Collector {
            output: place,
            identities: Vec::new(),
            directories: Vec::new(),
            files: Vec::new(),
            skipped: Vec::new(),
        }
    }

    /// Passes a path over.
    pub fn pass(&mut self, path: &str, reason: &str)
        ensures
            final(self)@ == old(self)@.passing(path@, reason@),
    {
        let ghost before = skips(self.skipped@);
        self.skipped.push(SkippedPath { path: path.to_owned(), reason: reason.to_owned() });
        assert(skips(self.skipped@) =~= before.push((path@, reason@)));
    }

    /// Takes a file, unless it is the output or was taken before. Says whether
    /// it was taken.
    pub fn push_unique(&mut self, path: &str, identity: &str) -> (taken: bool)
        ensures
            final(self)@ == old(self)@.taking(path@, components(identity@)),
            taken == (old(self)@.output != Some(components(identity@))
                && !old(self)@.identities.contains(components(identity@))),
    {
        let place = components_of(chars_of(identity).as_slice());
        let is_output = match &self.output {
            Some(held) => same_components(held.as_slice(), place.as_slice()),
            None => false,
        };
        if is_output {
            self.pass(path, "output file");
            return false;
        }
        if holds(&self.identities, &place) {
            self.pass(path, "duplicate or symlink alias");
            return false;
        }
        let ghost ids = places(self.identities@);
        let ghost paths = views(self.files@);
        self.identities.push(place);
        self.files.push(path.to_owned());
        assert(places(self.identities@) =~= ids.push(components(identity@)));
        assert(views(self.files@) =~= paths.push(path@));
        true
    }

    /// Enters a directory, unless it was entered before. Says whether its
    /// entries are to be walked.
    pub fn enter(&mut self, path: &str, identity: &str) -> (walk: bool)
        ensures
            final(self)@ == old(self)@.entering(path@, components(identity@)),
            walk == !old(self)@.directories.contains(components(identity@)),
    {
        let place = components_of(chars_of(identity).as_slice());
        if holds(&self.directories, &place) {
            self.pass(path, "directory already visited through another path");
            return false;
        }
        let ghost dirs = places(self.directories@);
        self.directories.push(place);
        assert(places(self.directories@) =~= dirs.push(components(identity@)));
        true
    }

    /// Judges an entry, and says what is to be done about it.
    pub fn judge(&mut self, entry: &Entry) -> (action: EntryAction)
        ensures
            action.fate() == entry.fate(),
            final(self)@ == old(self)@.judging(*entry),
    {
        match &entry.ignored_by {
            Some(source) => {
                let mut reason = "ignored by ".to_owned();
                reason.append(source.as_str());
                self.pass(entry.path.as_str(), reason.as_str());
                return EntryAction::LeaveOut(reason);
            },
            None => {},
        }
        let name = chars_of(entry.name.as_str());
        if name.len() > 0 && name[0] == '.' {
            self.pass(entry.path.as_str(), "hidden path");
            return EntryAction::LeaveOut("hidden path".to_owned());
        }
        if entry.is_dir {
            let text = entry.name.as_str();
            if *text == *"target" || *text == *"node_modules" || *text == *"__pycache__" || *text
                == *".git" {
                self.pass(entry.path.as_str(), "built-in excluded directory");
                return EntryAction::LeaveOut("built-in excluded directory".to_owned());
            }
            return EntryAction::Walk;
        }
        if entry.is_file {
            EntryAction::Read
        } else {
            self.pass(entry.path.as_str(), "unsupported filesystem entry");
            EntryAction::Pass
        }
    }

    /// Takes a file of a directory once it was read, or passes it over.
    pub fn read(&mut self, path: &str, identity: &str, content: Content)
        ensures
            final(self)@ == old(self)@.reading(path@, components(identity@), content),
    {
        match content {
            Content::Text(text) => {
                if is_generated_olink_output(text) {
                    self.pass(path, "generated o-link output");
                } else {
                    let _ = self.push_unique(path, identity);
                }
            },
            Content::NotText => {
                self.pass(path, "not UTF-8 text");
            },
            Content::Unreadable(error) => {
                let mut reason = "read error: ".to_owned();
                reason.append(error);
                self.pass(path, reason.as_str());
            },
        }
    }
}

/// The names of a directory's entries, in ascending order.
pub fn in_name_order(names: &[String]) -> (out: Vec<String>)
    ensures
        ascending(views(out@)),
        members(out@) == members(names@),
{
    let ghost all = views(names@);
    let mut out: Vec<String> = Vec::new();
    let mut i: usize = 0;
    assert(members(out@) =~= all.take(0).to_set());
    while i < names.len()
        invariant
            all == views(names@),
            i <= names@.len(),
            ascending(views(out@)),
            members(out@) == all.take(i as int).to_set(),
        decreases names@.len() - i,
    {
        insert_ascending(&mut out, names[i].clone());
        proof {
            let now = all.take(i + 1);
            assert(all[i as int] == names@[i as int]@);
            assert forall|t: Seq<char>| members(out@).contains(t) == now.to_set().contains(t) by {
                if now.contains(t) {
                    let k = choose|k: int| 0 <= k < now.len() && now[k] == t;
                    if k < i {
                        assert(all.take(i as int)[k] == t);
                    }
                }
                if all.take(i as int).contains(t) {
                    let k = choose|k: int| 0 <= k < i && all.take(i as int)[k] == t;
                    assert(now[k] == t);
                }
                assert(now[i as int] == all[i as int]);
            }
            assert(members(out@) =~= now.to_set());
        }
        i += 1;
    }
    assert(all.take(i as int) =~= all);
    out
}

} // verus!
