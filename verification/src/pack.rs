//! What goes into an archive, and where it lands.
use crate::error::{Error, ErrorView, Result};
use crate::text;
use vstd::prelude::*;

verus! {

/// The paths that `Path::join` of std may make of a directory and a name
/// inside it, on whatever system: each has its own separators, and its own
/// notion of an absolute name, which stands for itself.
pub uninterp spec fn path_joins(dir: Seq<char>, name: Seq<char>) -> Set<Seq<char>>;

/// Joins a directory and a name inside it with `Path::join` of std. Taken on
/// trust: which paths are possible depends on the two alone. Which of them it
/// is depends on the system, and nothing is claimed of that.
#[verifier::external_body]
fn join_path(dir: &str, name: &str) -> (path: String)
    ensures
        path_joins(dir@, name@).contains(path@),
{
    std::path::Path::new(dir).join(name).to_string_lossy().into_owned()
}

/// The answers that `Path::exists` of std may give for `path`, whatever the
/// disk holds at the time.
pub uninterp spec fn exists_answers(path: Seq<char>) -> Set<bool>;

/// Calls `Path::exists` of std. Taken on trust: which answers are possible
/// depends on the path alone. Which of them is given depends on the disk, and
/// nothing is claimed of that: two looks at one path may differ.
#[verifier::external_body]
fn path_exists(path: &str) -> (exists: bool)
    ensures
        exists_answers(path@).contains(exists),
{
    std::path::Path::new(path).exists()
}

/// Whether a look for `basename` in `outdir` may have gone to the path `dest`
/// and found it there or not.
pub open spec fn looked_up(
    outdir: Seq<char>,
    basename: Seq<char>,
    dest: Seq<char>,
    exists: bool,
) -> bool {
    path_joins(outdir, basename).contains(dest) && exists_answers(dest).contains(exists)
}

/// Where `basename` goes in `outdir`, and whether something is there already.
pub fn look_up(outdir: &str, basename: &str) -> (found: (String, bool))
    ensures
        looked_up(outdir@, basename@, found.0@, found.1),
{
    let dest: String = join_path(outdir, basename);
    let exists: bool = path_exists(dest.as_str());
    (dest, exists)
}

/// Whether `basename` already exists in `outdir`: the answer of the disk about
/// the two joined.
pub fn dest_exists(outdir: &str, basename: &str) -> (exists: bool)
    ensures
        exists|dest: Seq<char>| #[trigger] looked_up(outdir@, basename@, dest, exists),
{
    let (dest, exists): (String, bool) = look_up(outdir, basename);
    assert(looked_up(outdir@, basename@, dest@, exists));
    exists
}

/// The name of the archive that a transfer of `basename` leaves behind.
pub open spec fn archive_name(basename: Seq<char>) -> Seq<char> {
    basename + ".tar.zst"@
}

pub fn archive_filename(basename: &str) -> (name: String)
    ensures
        name@ == archive_name(basename@),
{
    let mut name = String::from_str(basename);
    name.append(".tar.zst");
    name
}

/// The name of the temporary archive of process `pid`, made `nanos`
/// nanoseconds after the epoch.
pub open spec fn temp_name_of(pid: u32, nanos: u64) -> Seq<char> {
    "airgap-xfer-"@ + text::decimal(pid as nat) + "-"@ + text::decimal(nanos as nat) + ".tar.zst"@
}

pub fn temp_name(pid: u32, nanos: u64) -> (name: String)
    ensures
        name@ == temp_name_of(pid, nanos),
{
    let mut name = String::from_str("airgap-xfer-");
    text::push_decimal(&mut name, pid as u64);
    name.append("-");
    text::push_decimal(&mut name, nanos);
    name.append(".tar.zst");
    name
}

/// The complaint about a path without a last component.
pub fn no_basename(path: &str) -> (err: Error)
    ensures
        err@ == ErrorView::Message("path has no basename: "@ + path@),
{
    let mut line = String::from_str("path has no basename: ");
    line.append(path);
    Error::Message(line)
}

/// What a look at a path found.
pub enum Found {
    Unreadable(String),
    Symlink,
    /// A file of this many bytes.
    File(u64),
    Directory,
    /// A socket, a device, and the like.
    Other,
}

/// One entry of a directory: the number under which the program knows it, or
/// why it could not be read.
pub enum Listed {
    Entry(usize),
    Unreadable(String),
}

/// What is still to be packed.
pub enum Todo {
    /// The entry with this number.
    Visit(usize),
    /// An entry that could not be read, and what to say about it.
    Skip(String),
}

#[verifier::ext_equal]
pub enum TodoView {
    Visit(usize),
    Skip(Seq<char>),
}

impl View for Todo {
    type V = TodoView;

    open spec fn view(&self) -> TodoView {
        match *self {
            Todo::Visit(entry) => TodoView::Visit(entry),
            Todo::Skip(warning) => TodoView::Skip(warning@),
        }
    }
}

/// A walk through a file tree that is being packed: what went in, what was
/// left out, and what is still to be visited, next one last.
pub struct Walk {
    todo: Vec<Todo>,
    warnings: Vec<String>,
    entry_count: u64,
    uncompressed_hint: u64,
}

/// A [`Walk`] as mathematical data.
#[verifier::ext_equal]
pub struct WalkView {
    pub todo: Seq<TodoView>,
    pub warnings: Seq<Seq<char>>,
    pub entry_count: u64,
    pub uncompressed_hint: u64,
}

pub open spec fn todo_views(todo: Seq<Todo>) -> Seq<TodoView> {
    todo.map_values(|t: Todo| t@)
}

pub open spec fn texts(lines: Seq<String>) -> Seq<Seq<char>> {
    lines.map_values(|s: String| s@)
}

impl View for Walk {
    type V = WalkView;

    closed spec fn view(&self) -> WalkView {
        WalkView {
            todo: todo_views(self.todo@),
            warnings: texts(self.warnings@),
            entry_count: self.entry_count,
            uncompressed_hint: self.uncompressed_hint,
        }
    }
}

/// What to do with an entry after a look at it.
#[derive(Clone, Copy, Debug, PartialEq, Eq, Structural)]
pub enum Step {
    /// Leave it out.
    Skip,
    AppendFile,
    /// Append the directory itself, then list it.
    AppendDirectory,
}

/// The sum of two sizes, as large as can be told.
pub open spec fn total(a: u64, b: u64) -> u64 {
    if a + b > u64::MAX {
        u64::MAX
    } else {
        (a + b) as u64
    }
}

impl WalkView {
    pub open spec fn warned(self, warning: Seq<char>) -> WalkView {
        WalkView { warnings: self.warnings.push(warning), ..self }
    }

    /// After one more entry of `len` bytes went in.
    pub open spec fn packed(self, len: u64) -> WalkView {
        WalkView {
            entry_count: total(self.entry_count, 1),
            uncompressed_hint: total(self.uncompressed_hint, len),
            ..self
        }
    }

    /// After a look at the entry at `path`.
    pub open spec fn inspected(self, path: Seq<char>, found: Found) -> (WalkView, Step) {
        match found {
            Found::Unreadable(err) => (self.warned(unreadable_text(path, err@)), Step::Skip),
            Found::Symlink => (self.warned("skipped symlink "@ + path), Step::Skip),
            Found::Other => (
                self.warned("skipped unsupported file type "@ + path),
                Step::Skip,
            ),
            Found::File(_) => (self, Step::AppendFile),
            Found::Directory => (self, Step::AppendDirectory),
        }
    }

    /// After an attempt to append the entry at `path`.
    pub open spec fn appended(self, path: Seq<char>, len: u64, failure: Option<Seq<char>>) -> WalkView {
        match failure {
            None => self.packed(len),
            Some(err) => self.warned(unreadable_text(path, err)),
        }
    }
}

pub open spec fn unreadable_text(path: Seq<char>, err: Seq<char>) -> Seq<char> {
    "skipped unreadable "@ + path + ": "@ + err
}

pub open spec fn unreadable_entry_text(path: Seq<char>, err: Seq<char>) -> Seq<char> {
    "skipped unreadable entry in "@ + path + ": "@ + err
}

fn unreadable(path: &str, err: &str) -> (line: String)
    ensures
        line@ == unreadable_text(path@, err@),
{
    let mut line = String::from_str("skipped unreadable ");
    line.append(path);
    line.append(": ");
    line.append(err);
    line
}

/// What a listing adds to the walk: its entries, the first of them next.
pub open spec fn listing_todo(path: Seq<char>, entries: Seq<Listed>) -> Seq<TodoView>
    decreases entries.len(),
{
    if entries.len() == 0 {
        Seq::empty()
    } else {
        let first = match entries[0] {
            Listed::Entry(entry) => TodoView::Visit(entry),
            Listed::Unreadable(err) => TodoView::Skip(unreadable_entry_text(path, err@)),
        };
        listing_todo(path, entries.skip(1)).push(first)
    }
}

/// The entries of a listing are visited in their order: the first of them
/// stands last, where the walk goes on.
pub proof fn law_listings_are_visited_in_order(path: Seq<char>, entries: Seq<Listed>, i: int)
    requires
        0 <= i < entries.len(),
    ensures
        listing_todo(path, entries).len() == entries.len(),
        listing_todo(path, entries)[entries.len() - 1 - i] == match entries[i] {
            Listed::Entry(entry) => TodoView::Visit(entry),
            Listed::Unreadable(err) => TodoView::Skip(unreadable_entry_text(path, err@)),
        },
    decreases entries.len(),
{
    let rest = entries.skip(1);
    if i > 0 {
        law_listings_are_visited_in_order(path, rest, i - 1);
        assert(rest[i - 1] == entries[i]);
    } else if rest.len() > 0 {
        law_listings_are_visited_in_order(path, rest, 0);
    }
}

/// The warnings at the end of `todo`, and how many items they are.
pub open spec fn due_warnings(todo: Seq<TodoView>) -> (Seq<TodoView>, Seq<Seq<char>>)
    decreases todo.len(),
{
    if todo.len() > 0 && todo.last() is Skip {
        let (rest, warnings) = due_warnings(todo.drop_last());
        (rest, seq![todo.last()->Skip_0] + warnings)
    } else {
        (todo, Seq::empty())
    }
}

impl Walk {
    /// A walk that starts at the entry with the given number.
    pub fn new(root: usize) -> (walk: Walk)
        ensures
            walk@ == (WalkView {
                todo: seq![TodoView::Visit(root)],
                warnings: Seq::empty(),
                entry_count: 0,
                uncompressed_hint: 0,
            }),
    {
        let mut todo: Vec<Todo> = Vec::new();
        todo.push(Todo::Visit(root));
        let walk = Walk { todo, warnings: Vec::new(), entry_count: 0, uncompressed_hint: 0 };
        assert(walk@.todo =~= seq![TodoView::Visit(root)]);
        assert(walk@.warnings =~= Seq::empty());
        walk
    }

    /// The entry to look at next, if any is left. Entries that could not be
    /// read are warned about in their turn.
    pub fn next(&mut self) -> (entry: Option<usize>)
        ensures
            ({
                let (todo, warnings) = due_warnings(old(self)@.todo);
                &&& final(self)@ == (WalkView {
                    todo: if todo.len() > 0 {
                        todo.drop_last()
                    } else {
                        todo
                    },
                    warnings: old(self)@.warnings + warnings,
                    ..old(self)@
                })
                &&& match entry {
                    Some(number) => todo.len() > 0 && todo.last() == TodoView::Visit(number),
                    None => todo.len() == 0,
                }
            }),
        decreases old(self)@.todo.len(),
    {
        let ghost before: Seq<Todo> = self.todo@;
        let ghost said: Seq<String> = self.warnings@;
        match self.todo.pop() {
            None => {
                assert(before.len() == 0);
                assert(todo_views(self.todo@) =~= todo_views(before));
                assert(texts(said) + Seq::<Seq<char>>::empty() =~= texts(said));
                None
            },
            Some(Todo::Visit(entry)) => {
                assert(todo_views(self.todo@) =~= todo_views(before).drop_last());
                assert(texts(said) + Seq::<Seq<char>>::empty() =~= texts(said));
                Some(entry)
            },
            Some(Todo::Skip(warning)) => {
                assert(todo_views(self.todo@) =~= todo_views(before).drop_last());
                self.warnings.push(warning);
                assert(texts(self.warnings@) =~= texts(said).push(warning@));
                let ghost mid: WalkView = self@;
                let entry: Option<usize> = self.next();
                proof {
                    let (rest, more) = due_warnings(mid.todo);
                    assert(texts(said).push(warning@) + more =~= texts(said) + (seq![warning@]
                        + more));
                }
                entry
            },
        }
    }

    /// Takes note of a look at the entry at `path`, and says what to do with
    /// it.
    pub fn inspect(&mut self, path: &str, found: Found) -> (step: Step)
        ensures
            (final(self)@, step) == old(self)@.inspected(path@, found),
    {
        match found {
            Found::Unreadable(err) => {
                self.warn(unreadable(path, err.as_str()));
                Step::Skip
            },
            Found::Symlink => {
                let mut line = String::from_str("skipped symlink ");
                line.append(path);
                self.warn(line);
                Step::Skip
            },
            Found::Other => {
                let mut line = String::from_str("skipped unsupported file type ");
                line.append(path);
                self.warn(line);
                Step::Skip
            },
            Found::File(_) => Step::AppendFile,
            Found::Directory => Step::AppendDirectory,
        }
    }

    fn warn(&mut self, warning: String)
        ensures
            final(self)@ == old(self)@.warned(warning@),
    {
        self.warnings.push(warning);
        assert(texts(self.warnings@) =~= old(self)@.warnings.push(warning@));
    }

    /// Takes note of an attempt to append a file of `len` bytes, or a
    /// directory, for which `len` is zero. `true` means that it went in.
    pub fn append(&mut self, path: &str, len: u64, failure: Option<String>) -> (went_in: bool)
        ensures
            final(self)@ == old(self)@.appended(
                path@,
                len,
                match failure {
                    Some(err) => Some(err@),
                    None => None,
                },
            ),
            went_in == (failure is None),
    {
        match failure {
            None => {
                self.entry_count = self.entry_count.saturating_add(1);
                self.uncompressed_hint = self.uncompressed_hint.saturating_add(len);
                true
            },
            Some(err) => {
                self.warn(unreadable(path, err.as_str()));
                false
            },
        }
    }

    /// Takes note of the entries of the directory at `path`, which are visited
    /// next, in their order.
    pub fn list(&mut self, path: &str, entries: Vec<Listed>)
        ensures
            final(self)@ == (WalkView {
                todo: old(self)@.todo + listing_todo(path@, entries@),
                ..old(self)@
            }),
    {
        let ghost all: Seq<Listed> = entries@;
        let ghost before: Seq<TodoView> = self@.todo;
        let ghost start: WalkView = self@;
        let mut entries = entries;
        assert(all.skip(all.len() as int) =~= Seq::<Listed>::empty());
        assert(before + listing_todo(path@, all.skip(all.len() as int)) =~= before);
        while entries.len() > 0
            invariant
                entries@ == all.take(entries@.len() as int),
                entries@.len() <= all.len(),
                self@ == (WalkView {
                    todo: before + listing_todo(path@, all.skip(entries@.len() as int)),
                    ..start
                }),
            decreases entries@.len(),
        {
            let ghost n: int = entries@.len() as int;
            let ghost todo: Seq<Todo> = self.todo@;
            match entries.pop() {
                Some(Listed::Entry(entry)) => {
                    self.todo.push(Todo::Visit(entry));
                },
                Some(Listed::Unreadable(err)) => {
                    let mut line = String::from_str("skipped unreadable entry in ");
                    line.append(path);
                    line.append(": ");
                    line.append(err.as_str());
                    self.todo.push(Todo::Skip(line));
                },
                None => {},
            }
            proof {
                assert(all.skip(n - 1)[0] == all[n - 1]);
                assert(all.skip(n - 1).skip(1) =~= all.skip(n));
                assert(entries@ =~= all.take(n - 1));
                assert(todo_views(self.todo@) =~= todo_views(todo).push(self.todo@.last()@));
            }
        }
        assert(all.skip(0) =~= all);
    }

    /// Takes note of a directory that could not be listed.
    pub fn unlisted(&mut self, path: &str, err: &str)
        ensures
            final(self)@ == old(self)@.warned(unreadable_text(path@, err@)),
    {
        self.warn(unreadable(path, err));
    }

    /// What was packed: how many bytes went in, and what was left out. A truly
    /// empty directory is a valid archive (its root entry round-trips). A
    /// directory whose only contents were skipped is not.
    pub fn finish(self) -> (outcome: Result<(u64, Vec<String>)>)
        ensures
            match outcome {
                Ok(packed) => !leaves_nothing(self@) && packed.0 == self@.uncompressed_hint && texts(
                    packed.1@,
                ) == self@.warnings,
                Err(e) => leaves_nothing(self@) && e@ == ErrorView::EmptyArchive,
            },
    {
        assert(self@.warnings.len() == self.warnings@.len());
        if self.entry_count == 0 || (self.entry_count == 1 && self.warnings.len() > 0) {
            return Err(Error::EmptyArchive);
        }
        Ok((self.uncompressed_hint, self.warnings))
    }
}

/// Whether a walk packed nothing worth sending.
pub open spec fn leaves_nothing(walk: WalkView) -> bool {
    walk.entry_count == 0 || (walk.entry_count == 1 && walk.warnings.len() > 0)
}

/// Nothing is left out in silence: a look that skips an entry adds exactly one
/// warning, and so does an append that fails, while one that works counts the
/// entry.
pub proof fn law_nothing_is_skipped_in_silence(
    walk: WalkView,
    path: Seq<char>,
    found: Found,
    len: u64,
    failure: Option<Seq<char>>,
)
    requires
        walk.entry_count < u64::MAX,
    ensures
        walk.inspected(path, found).1 == Step::Skip ==> walk.inspected(path, found).0.warnings.len()
            == walk.warnings.len() + 1,
        walk.inspected(path, found).1 != Step::Skip ==> walk.inspected(path, found).0 == walk,
        ({
            let after = walk.appended(path, len, failure);
            (after.entry_count - walk.entry_count) + (after.warnings.len() - walk.warnings.len())
                == 1
        }),
{
}

/// Every file goes into the archive, however large, and every directory; neither
/// look leaves a trace in the walk. What is left out is what cannot be read, a
/// symlink, and anything that is neither file nor directory, each with the
/// warning that says so.
pub proof fn law_files_and_directories_go_in(walk: WalkView, path: Seq<char>, found: Found)
    ensures
        found is File ==> walk.inspected(path, found) == (walk, Step::AppendFile),
        found is Directory ==> walk.inspected(path, found) == (walk, Step::AppendDirectory),
        walk.inspected(path, found).1 == Step::Skip <==> found is Unreadable || found is Symlink
            || found is Other,
        walk.inspected(path, found).0.todo == walk.todo,
        walk.inspected(path, found).0.entry_count == walk.entry_count,
        walk.inspected(path, found).0.uncompressed_hint == walk.uncompressed_hint,
        found matches Found::Unreadable(err) ==> walk.inspected(path, found).0.warnings
            == walk.warnings.push("skipped unreadable "@ + path + ": "@ + err@),
        found is Symlink ==> walk.inspected(path, found).0.warnings == walk.warnings.push(
            "skipped symlink "@ + path,
        ),
        found is Other ==> walk.inspected(path, found).0.warnings == walk.warnings.push(
            "skipped unsupported file type "@ + path,
        ),
{
}

/// What goes in counts as one entry and adds its length to the size, as long as
/// the numbers can be told; what does not go in is warned about and adds
/// nothing.
pub proof fn law_sizes_add_up(walk: WalkView, path: Seq<char>, len: u64, failure: Option<Seq<char>>)
    ensures
        ({
            let after = walk.appended(path, len, failure);
            &&& after.todo == walk.todo
            &&& failure is None ==> {
                &&& after.warnings == walk.warnings
                &&& walk.entry_count < u64::MAX ==> after.entry_count == walk.entry_count + 1
                &&& walk.entry_count == u64::MAX ==> after.entry_count == u64::MAX
                &&& walk.uncompressed_hint + len <= u64::MAX ==> after.uncompressed_hint
                    == walk.uncompressed_hint + len
                &&& walk.uncompressed_hint + len > u64::MAX ==> after.uncompressed_hint == u64::MAX
            }
            &&& failure matches Some(err) ==> {
                &&& after.entry_count == walk.entry_count
                &&& after.uncompressed_hint == walk.uncompressed_hint
                &&& after.warnings == walk.warnings.push("skipped unreadable "@ + path + ": "@ + err)
            }
        }),
{
}

/// An archive is worth sending if two entries went in, or one and nothing was
/// left out: an empty directory is, one whose contents were all left out is not,
/// and neither is nothing at all.
pub proof fn law_what_is_worth_sending(walk: WalkView)
    ensures
        walk.entry_count >= 2 ==> !leaves_nothing(walk),
        walk.entry_count == 1 ==> (leaves_nothing(walk) <==> walk.warnings.len() > 0),
        walk.entry_count == 0 ==> leaves_nothing(walk),
{
}

/// Each entry of a listing is either visited or warned about, with the warning
/// that says which directory it is in.
pub proof fn law_listed_entries_are_visited_or_warned_about(
    path: Seq<char>,
    entries: Seq<Listed>,
    i: int,
)
    requires
        0 <= i < entries.len(),
    ensures
        entries[i] matches Listed::Entry(entry) ==> listing_todo(path, entries)[entries.len() - 1
            - i] == TodoView::Visit(entry),
        entries[i] matches Listed::Unreadable(err) ==> listing_todo(path, entries)[entries.len() - 1
            - i] == TodoView::Skip("skipped unreadable entry in "@ + path + ": "@ + err@),
{
    law_listings_are_visited_in_order(path, entries, i);
}

/// The walk goes on at the last entry of the list that is to be visited. The
/// warnings behind that are given, the last of them first, and nothing else is
/// dropped.
pub proof fn law_the_walk_goes_on_at_the_next_entry(todo: Seq<TodoView>)
    ensures
        ({
            let (rest, warnings) = due_warnings(todo);
            &&& rest.len() + warnings.len() == todo.len()
            &&& rest == todo.take(rest.len() as int)
            &&& rest.len() > 0 ==> rest.last() is Visit
            &&& forall|k: int|
                0 <= k < warnings.len() ==> todo[todo.len() - 1 - k] == TodoView::Skip(
                    #[trigger] warnings[k],
                )
        }),
    decreases todo.len(),
{
    if todo.len() > 0 && todo.last() is Skip {
        law_the_walk_goes_on_at_the_next_entry(todo.drop_last());
        let (rest, warnings) = due_warnings(todo.drop_last());
        let all = seq![todo.last()->Skip_0] + warnings;
        assert(rest =~= todo.take(rest.len() as int));
        assert forall|k: int| 0 <= k < all.len() implies todo[todo.len() - 1 - k] == TodoView::Skip(
            #[trigger] all[k],
        ) by {
            if k > 0 {
                assert(all[k] == warnings[k - 1]);
                assert(todo.drop_last()[todo.len() - 1 - k] == todo[todo.len() - 1 - k]);
            }
        }
    } else {
        assert(todo =~= todo.take(todo.len() as int));
    }
}

/// The archive and its temporary copy are named after what they hold.
pub proof fn law_archives_are_named_after_their_contents(basename: Seq<char>, pid: u32, nanos: u64)
    ensures
        archive_name(basename) == basename + ".tar.zst"@,
        temp_name_of(pid, nanos) == "airgap-xfer-"@ + text::decimal(pid as nat) + "-"@
            + text::decimal(nanos as nat) + ".tar.zst"@,
{
}

/// Only a directory's names for itself and its parent are passed over when the
/// top of an archive is looked at; the other names stay, in order.
pub proof fn law_real_names_are_all_but_the_dots(names: Seq<String>)
    ensures
        real_names(names) == texts(names).filter(|name: Seq<char>| name != "."@ && name != ".."@),
    decreases names.len(),
{
    reveal(Seq::filter);
    if names.len() > 0 {
        law_real_names_are_all_but_the_dots(names.drop_last());
        assert(texts(names).drop_last() =~= texts(names.drop_last()));
    } else {
        assert(texts(names) =~= Seq::empty());
    }
}

/// Whether `name` is a directory's own name for itself or its parent.
pub open spec fn is_dots(name: Seq<char>) -> bool {
    name == "."@ || name == ".."@
}

/// The names among `names` that are real entries.
pub open spec fn real_names(names: Seq<String>) -> Seq<Seq<char>>
    decreases names.len(),
{
    if names.len() == 0 {
        Seq::empty()
    } else if is_dots(names.last()@) {
        real_names(names.drop_last())
    } else {
        real_names(names.drop_last()).push(names.last()@)
    }
}

pub open spec fn bad_archive_text(found: nat) -> Seq<char> {
    "bad archive: expected exactly one top-level entry, found "@ + text::decimal(found)
}

/// The one entry at the top of an unpacked archive.
pub fn archive_root_basename(names: Vec<String>) -> (root: Result<String>)
    ensures
        match root {
            Ok(name) => real_names(names@) == seq![name@],
            Err(e) => real_names(names@).len() != 1 && e@ == ErrorView::Message(
                bad_archive_text(real_names(names@).len()),
            ),
        },
{
    let mut root: Option<String> = None;
    let mut count: usize = 0;
    let mut i: usize = 0;
    while i < names.len()
        invariant
            i <= names@.len(),
            count <= i,
            count == real_names(names@.take(i as int)).len(),
            match root {
                Some(name) => count > 0 && real_names(names@.take(i as int)).last() == name@,
                None => count == 0,
            },
        decreases names@.len() - i,
    {
        proof {
            assert(names@.take(i + 1).drop_last() == names@.take(i as int));
        }
        if !same_text(names[i].as_str(), ".") && !same_text(names[i].as_str(), "..") {
            root = Some(names[i].clone());
            count = count + 1;
        }
        i = i + 1;
    }
    assert(names@.take(i as int) == names@);
    match root {
        Some(name) => if count == 1 {
            assert(real_names(names@) =~= seq![name@]);
            return Ok(name);
        },
        None => {},
    }
    let mut line = String::from_str("bad archive: expected exactly one top-level entry, found ");
    text::push_decimal(&mut line, count as u64);
    Err(Error::Message(line))
}

fn same_text(a: &str, b: &str) -> (same: bool)
    ensures
        same == (a@ == b@),
{
    String::from_str(a) == String::from_str(b)
}

/// Whether something has to be removed before a destination is written: one
/// that exists is replaced only by `force`.
pub fn clear_destination(exists: bool, force: bool, path: &str) -> (remove: Result<bool>)
    ensures
        match remove {
            Ok(r) => r == exists && (exists ==> force),
            Err(e) => exists && !force && e@ == ErrorView::DestExists(path@),
        },
{
    if exists && !force {
        return Err(Error::DestExists(String::from_str(path)));
    }
    Ok(exists)
}

/// What a path is, as far as removing it goes.
pub enum Removable {
    Directory,
    Other,
    Missing,
    Unknown(String),
}

/// How to remove a path.
#[derive(Clone, Copy, Debug, PartialEq, Eq, Structural)]
pub enum Removal {
    Tree,
    File,
    /// There is nothing to remove.
    Nothing,
    /// The path cannot even be looked at.
    Fail,
}

pub fn removal(path: &Removable) -> (how: Removal)
    ensures
        how == match *path {
            Removable::Directory => Removal::Tree,
            Removable::Other => Removal::File,
            Removable::Missing => Removal::Nothing,
            Removable::Unknown(_) => Removal::Fail,
        },
{
    match path {
        Removable::Directory => Removal::Tree,
        Removable::Other => Removal::File,
        Removable::Missing => Removal::Nothing,
        Removable::Unknown(_) => Removal::Fail,
    }
}

/// What to say when the temporary archive could not be removed; nothing if it
/// was gone already.
pub fn removal_warning(path: &str, missing: bool, err: &str) -> (warning: Option<String>)
    ensures
        match warning {
            Some(line) => !missing && line@ == "warning: failed to remove temporary archive "@ + path@
                + ": "@ + err@,
            None => missing,
        },
{
    if missing {
        return None;
    }
    let mut line = String::from_str("warning: failed to remove temporary archive ");
    line.append(path);
    line.append(": ");
    line.append(err);
    Some(line)
}

/// An archive with no entry at its top, or several, is complained about with
/// their number.
pub proof fn law_what_is_said_of_a_bad_archive(found: nat)
    ensures
        bad_archive_text(found) == "bad archive: expected exactly one top-level entry, found "@
            + text::decimal(found),
{
}

} // verus!
