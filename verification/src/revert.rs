//! Undoing what a turn did to files: what they were before it, and what came of bringing that back.
use crate::number;
use crate::number::count;
use crate::order;
use crate::order::{sort_named, Named};
use crate::path;
use crate::path::{is_windows, resolve_for_write, with_slashes};
use crate::snippet;
use crate::snippet::display_path;
use crate::split;
use crate::split::join;
use crate::table;
use crate::table::Table;
use crate::text;
use crate::text::{cat3, holds, string_of};
use crate::tools;
use crate::tools::parse_patch_arguments;
use vstd::prelude::*;
use vstd::string::*;

verus! {

broadcast use crate::text::group_views;

// ---------------------------------------------------------------------------------------------
// Before the turn
// ---------------------------------------------------------------------------------------------

/// What stands at a path. `T` is text: `String` in a value, `Seq<char>` in its model.
#[derive(Debug)]
pub enum FileState<T> {
    /// A file with this text.
    Text(T),
    /// Nothing that is a file.
    NotAFile,
    /// A file whose text cannot be read.
    Unreadable,
}

impl View for FileState<String> {
    type V = FileState<Seq<char>>;

    open spec fn view(&self) -> FileState<Seq<char>> {
        match self {
            FileState::Text(content) => FileState::Text(content@),
            FileState::NotAFile => FileState::NotAFile,
            FileState::Unreadable => FileState::Unreadable,
        }
    }
}

/// What some files were before the turn: their text, or that they were not there.
#[derive(Debug)]
pub struct Snapshot {
    pub files: Table<Option<String>>,
}

impl View for Snapshot {
    type V = Map<Seq<char>, Option<Seq<char>>>;

    open spec fn view(&self) -> Map<Seq<char>, Option<Seq<char>>> {
        Map::new(
            |path: Seq<char>| self.files.get_spec(path) is Some,
            |path: Seq<char>| text::opt_view(self.files.get_spec(path)->0),
        )
    }
}

/// The snapshot after a file is about to be changed. What it holds of a file stays; a file whose
/// text cannot be read is not held, since it cannot be changed either.
pub open spec fn kept(
    files: Map<Seq<char>, Option<Seq<char>>>,
    target: Seq<char>,
    state: FileState<Seq<char>>,
) -> Map<Seq<char>, Option<Seq<char>>> {
    if files.contains_key(target) {
        files
    } else {
        match state {
            FileState::Text(content) => files.insert(target, Some(content)),
            FileState::NotAFile => files.insert(target, None),
            FileState::Unreadable => files,
        }
    }
}

/// However often a turn changes a file, the snapshot holds what it was before the first time.
pub proof fn law_first_touch_wins(
    files: Map<Seq<char>, Option<Seq<char>>>,
    target: Seq<char>,
    first: Seq<char>,
    other: Seq<char>,
    later: FileState<Seq<char>>,
)
    requires
        !files.contains_key(target),
    ensures
        ({
            let once = kept(files, target, FileState::Text(first));
            &&& once[target] == Some(first)
            &&& kept(once, target, later) == once
            &&& kept(once, other, later)[target] == Some(first)
        }),
{
}

impl Snapshot {
    /// No path occurs twice.
    pub open spec fn wf(&self) -> bool {
        self.files.wf()
    }

    /// A snapshot of nothing.
    pub fn new() -> (r: Snapshot)
        ensures
            r.wf(),
            r@ == Map::<Seq<char>, Option<Seq<char>>>::empty(),
            r.files.entries@.len() == 0,
    {
        let snapshot = Snapshot { files: Table::new() };
        assert(snapshot@ =~= Map::<Seq<char>, Option<Seq<char>>>::empty());
        snapshot
    }

    /// Whether nothing is held.
    pub fn is_empty(&self) -> (r: bool)
        ensures
            r == (self.files.entries@.len() == 0),
    {
        self.files.is_empty()
    }

    /// A file is about to be changed.
    pub fn keep(&mut self, target: &str, state: FileState<String>)
        requires
            old(self).wf(),
        ensures
            final(self).wf(),
            final(self)@ == kept(old(self)@, target@, state@),
    {
        let ghost before = self@;
        if self.files.get(target).is_some() {
            return;
        }
        match state {
            FileState::Text(content) => {
                self.files.insert(target.to_owned(), Some(content));
            },
            FileState::NotAFile => {
                self.files.insert(target.to_owned(), None);
            },
            FileState::Unreadable => {},
        }
        assert(self@ =~= kept(before, target@, state@));
    }
}

/// The file that a patch is to change, where its arguments name one inside the project.
pub open spec fn target_of(
    root: Seq<char>,
    arguments: Seq<char>,
    found: path::Found,
    is_dir: bool,
) -> Option<Seq<char>> {
    match tools::patch_of(arguments) {
        Ok(patch) => match path::write_path(root, patch.path, found, is_dir) {
            Ok(target) => Some(target),
            Err(_) => None,
        },
        Err(_) => None,
    }
}

/// The file that a patch is to change, where its arguments name one inside the project. `found` is
/// the canonical form of its directory, or why there is none, and `is_dir` tells whether it is one.
pub fn patch_target(
    root: &str,
    arguments: &str,
    found: Result<String, String>,
    is_dir: bool,
) -> (r: Option<String>)
    ensures
        text::opt_view(r) == target_of(root@, arguments@, text::res_view(found), is_dir),
{
    match parse_patch_arguments(arguments) {
        Ok(patch) => match resolve_for_write(root, patch.path.as_str(), found, is_dir) {
            Ok(target) => Some(target),
            Err(_) => None,
        },
        Err(_) => None,
    }
}

/// The edited files with one more, which is named only once.
pub open spec fn edited_with(edited: Seq<Seq<char>>, target: Seq<char>) -> Seq<Seq<char>> {
    if edited.contains(target) {
        edited
    } else {
        edited.push(target)
    }
}

/// A file is about to be changed where nothing can be brought back: only its name is kept.
pub fn note_edit(edited: &mut Vec<String>, target: &str)
    ensures
        text::views(final(edited)@) == edited_with(text::views(old(edited)@), target@),
{
    if !holds(edited, target) {
        edited.push(target.to_owned());
    }
}

// ---------------------------------------------------------------------------------------------
// After the turn
// ---------------------------------------------------------------------------------------------

/// A path as it is sorted: by its components, so that a directory comes before its neighbours.
pub open spec fn path_key(path: Seq<char>) -> Seq<char> {
    path::slashed(path, path::windows(path)).map_values(
        |c: char|
            if c == '/' {
                '\0'
            } else {
                c
            },
    )
}

fn key_of(path: &str) -> (r: String)
    ensures
        r@ == path_key(path@),
{
    let chars = with_slashes(path, is_windows(path));
    let mut out: Vec<char> = Vec::new();
    let mut i: usize = 0;
    while i < chars.len()
        invariant
            i <= chars.len(),
            chars@ == path::slashed(path@, path::windows(path@)),
            out@ =~= path_key(path@).take(i as int),
        decreases chars.len() - i,
    {
        let c = chars[i];
        out.push(
            if c == '/' {
                '\0'
            } else {
                c
            },
        );
        i += 1;
    }
    assert(out@ =~= path_key(path@));
    string_of(&out)
}

/// One file to bring back: its text, or nothing where it is to be removed.
#[derive(Debug)]
pub struct Restore {
    pub path: String,
    pub key: String,
    pub original: Option<String>,
}

/// What a [`Restore`] stands for.
#[verifier::ext_equal]
pub struct RestoreModel {
    pub path: Seq<char>,
    pub key: Seq<char>,
    pub original: Option<Seq<char>>,
}

impl View for Restore {
    type V = RestoreModel;

    open spec fn view(&self) -> RestoreModel {
        RestoreModel {
            path: self.path@,
            key: self.key@,
            original: text::opt_view(self.original),
        }
    }
}

impl Named for Restore {
    open spec fn name_in(model: RestoreModel) -> Seq<char> {
        model.key
    }

    fn name_text(&self) -> (r: &str) {
        self.key.as_str()
    }
}

/// The files of a snapshot, as they came.
pub open spec fn restores(entries: Seq<(String, Option<String>)>) -> Seq<RestoreModel> {
    Seq::new(
        entries.len(),
        |i: int|
            RestoreModel {
                path: entries[i].0@,
                key: path_key(entries[i].0@),
                original: text::opt_view(entries[i].1),
            },
    )
}

impl Snapshot {
    /// The files to bring back, in the order of their paths.
    pub fn plan(&self) -> (r: Vec<Restore>)
        ensures
            text::views(r@) == order::sorted_by(
                restores(self.files.entries@),
                order::name_key::<Restore>(),
            ),
    {
        let ghost wanted = restores(self.files.entries@);
        let mut all: Vec<Restore> = Vec::new();
        let mut i: usize = 0;
        while i < self.files.entries.len()
            invariant
                i <= self.files.entries.len(),
                wanted == restores(self.files.entries@),
                text::views(all@) =~= wanted.take(i as int),
            decreases self.files.entries.len() - i,
        {
            let entry = &self.files.entries[i];
            let item = Restore {
                path: entry.0.clone(),
                key: key_of(entry.0.as_str()),
                original: text::copy_opt(&entry.1),
            };
            assert(item@ == wanted[i as int]);
            all.push(item);
            i += 1;
        }
        assert(wanted.take(i as int) =~= wanted);
        sort_named(all)
    }
}

/// Bringing back a snapshot touches every file that it holds, and no other.
pub proof fn law_every_file_is_brought_back(snapshot: Snapshot, path: Seq<char>)
    requires
        snapshot.wf(),
    ensures
        ({
            let plan = order::sorted_by(
                restores(snapshot.files.entries@),
                order::name_key::<Restore>(),
            );
            &&& plan.len() == snapshot.files.entries@.len()
            &&& snapshot@.contains_key(path) <==> exists|i: int|
                0 <= i < plan.len() && (#[trigger] plan[i]).path == path && plan[i].original
                    == snapshot@[path]
        }),
{
    broadcast use vstd::seq_lib::group_to_multiset_ensures;

    let entries = snapshot.files.entries@;
    let all = restores(entries);
    let plan = order::sorted_by(all, order::name_key::<Restore>());
    order::law_sorted_by(all, order::name_key::<Restore>());
    if snapshot@.contains_key(path) {
        table::lemma_index_of(entries, path);
        let n = table::index_of(entries, path) as int;
        let item = all[n];
        assert(all.contains(item));
        assert(all.to_multiset().contains(item));
        assert(plan.contains(item));
        let i = choose|i: int| 0 <= i < plan.len() && plan[i] == item;
        assert(plan[i].path == path && plan[i].original == snapshot@[path]);
    }
    if exists|i: int|
        0 <= i < plan.len() && (#[trigger] plan[i]).path == path && plan[i].original
            == snapshot@[path] {
        let i = choose|i: int|
            0 <= i < plan.len() && (#[trigger] plan[i]).path == path && plan[i].original
                == snapshot@[path];
        assert(plan.to_multiset().contains(plan[i]));
        assert(all.contains(plan[i]));
        let n = choose|n: int| 0 <= n < all.len() && all[n] == plan[i];
        table::lemma_lookup_entry(entries, n);
    }
}

/// Why a file could not be removed.
#[derive(Debug)]
pub enum RemoveFault {
    /// It was not there.
    NotFound,
    Other(String),
}

/// What came of removing a file: one that was not there is gone as it should be.
pub fn removal(outcome: Result<(), RemoveFault>) -> (r: Result<(), String>)
    ensures
        match outcome {
            Err(RemoveFault::Other(cause)) => r == Err::<(), String>(cause),
            _ => r is Ok,
        },
{
    match outcome {
        Ok(_) => Ok(()),
        Err(RemoveFault::NotFound) => Ok(()),
        Err(RemoveFault::Other(cause)) => Err(cause),
    }
}

/// What came of bringing files back: which of them came back, and which did not and why.
#[derive(Debug)]
pub struct RevertOutcome {
    pub reverted: Vec<String>,
    pub failed: Vec<String>,
}

/// What is told of it.
pub open spec fn revert_summary(reverted: Seq<Seq<char>>, failed: Seq<Seq<char>>, context: Seq<char>) -> Seq<
    char,
> {
    let first = if reverted.len() == 0 {
        "Nothing reverted "@ + context + "."@
    } else {
        "Reverted "@ + number::decimal(reverted.len()) + " file(s) "@ + context + ": "@
            + split::joined(reverted, ", "@)
    };
    let second = if failed.len() == 0 {
        seq![]
    } else {
        "\nCould not revert "@ + number::decimal(failed.len()) + ": "@ + split::joined(
            failed,
            "; "@,
        )
    };
    first + second
}

impl Default for RevertOutcome {
    fn default() -> (r: RevertOutcome)
        ensures
            r.reverted@.len() == 0,
            r.failed@.len() == 0,
    {
        RevertOutcome { reverted: Vec::new(), failed: Vec::new() }
    }
}

impl RevertOutcome {
    /// Whether nothing was brought back and nothing failed.
    pub fn is_empty(&self) -> (r: bool)
        ensures
            r == (self.reverted@.len() == 0 && self.failed@.len() == 0),
    {
        self.reverted.len() == 0 && self.failed.len() == 0
    }

    /// What came of one file.
    pub fn record(&mut self, path: &str, result: Result<(), String>)
        ensures
            match result {
                Ok(_) => text::views(final(self).reverted@) == text::views(
                    old(self).reverted@,
                ).push(snippet::displayed(path@)) && final(self).failed@ == old(self).failed@,
                Err(error) => final(self).reverted@ == old(self).reverted@ && text::views(
                    final(self).failed@,
                ) == text::views(old(self).failed@).push(
                    snippet::displayed(path@) + " ("@ + error@ + ")"@,
                ),
            },
    {
        let shown = display_path(path);
        match result {
            Ok(_) => {
                self.reverted.push(shown);
            },
            Err(error) => {
                let mut line = cat3(shown.as_str(), " (", error.as_str());
                line.append(")");
                self.failed.push(line);
            },
        }
    }

    /// A report that names the files. `context` says which turn they belong to.
    pub fn summary(&self, context: &str) -> (r: String)
        ensures
            r@ == revert_summary(
                text::views(self.reverted@),
                text::views(self.failed@),
                context@,
            ),
    {
        let mut out = if self.reverted.len() == 0 {
            cat3("Nothing reverted ", context, ".")
        } else {
            let n = count(self.reverted.len());
            let list = join(&self.reverted, ", ");
            let mut line = cat3("Reverted ", n.as_str(), " file(s) ");
            line.append(context);
            line.append(": ");
            line.append(list.as_str());
            line
        };
        let mut failed = String::new();
        assert(failed@ =~= seq![]);
        if self.failed.len() > 0 {
            let n = count(self.failed.len());
            let list = join(&self.failed, "; ");
            failed = cat3("\nCould not revert ", n.as_str(), ": ");
            failed.append(list.as_str());
        }
        out.append(failed.as_str());
        out
    }
}

/// The report names every file that was brought back and every one that was not, and says of which
/// turn it speaks.
#[verifier::rlimit(50)]
pub proof fn law_reports_name_every_file(
    reverted: Seq<Seq<char>>,
    failed: Seq<Seq<char>>,
    context: Seq<char>,
    i: int,
)
    ensures
        0 <= i < reverted.len() ==> text::stands_in(
            revert_summary(reverted, failed, context),
            reverted[i],
        ),
        0 <= i < failed.len() ==> text::stands_in(
            revert_summary(reverted, failed, context),
            failed[i],
        ),
        text::stands_in(revert_summary(reverted, failed, context), context),
        reverted.len() > 0 ==> text::stands_in(
            revert_summary(reverted, failed, context),
            number::decimal(reverted.len()),
        ),
        failed.len() > 0 ==> text::stands_in(
            revert_summary(reverted, failed, context),
            number::decimal(failed.len()),
        ),
{
    broadcast use text::group_stands;

    if reverted.len() > 0 {
        split::law_joining_keeps_every_part(reverted, reverted, ", "@);
    }
    if failed.len() > 0 {
        split::law_joining_keeps_every_part(failed, failed, "; "@);
    }
}

/// Noting an edit forgets none, notes it once, and keeps the order in which files were first edited.
pub proof fn law_edits_are_noted_once(edited: Seq<Seq<char>>, target: Seq<char>)
    ensures
        edited.is_prefix_of(edited_with(edited, target)),
        edited_with(edited, target).contains(target),
        edited_with(edited_with(edited, target), target) == edited_with(edited, target),
        edited.contains(target) ==> edited_with(edited, target) == edited,
        edited_with(edited, target).len() <= edited.len() + 1,
{
    if !edited.contains(target) {
        assert(edited.push(target)[edited.len() as int] == target);
    }
}

/// A file that could not be read is left alone, one that was not there is noted as such, and no other
/// file is touched by what is kept of one.
pub proof fn law_keeping_touches_one_file(
    files: Map<Seq<char>, Option<Seq<char>>>,
    target: Seq<char>,
    state: FileState<Seq<char>>,
    other: Seq<char>,
)
    requires
        !files.contains_key(target),
    ensures
        state is Unreadable ==> kept(files, target, state) == files,
        state is NotAFile ==> kept(files, target, state).contains_key(target) && kept(
            files,
            target,
            state,
        )[target] is None,
        state matches FileState::Text(content) ==> kept(files, target, state).contains_key(target)
            && kept(files, target, state)[target] == Some(content),
        other != target ==> (kept(files, target, state).contains_key(other) <==> files.contains_key(
            other,
        )) && (files.contains_key(other) ==> kept(files, target, state)[other] == files[other]),
{
}

/// The file that is noted before a patch is the one that the patch writes.
pub proof fn law_the_file_noted_is_the_one_written(
    root: Seq<char>,
    arguments: Seq<char>,
    found: path::Found,
    is_dir: bool,
    exists: bool,
    facts: crate::context::FileFacts,
)
    ensures
        tools::patch_of(arguments) matches Ok(patch) ==> (crate::command::planned(
            root,
            patch,
            found,
            is_dir,
            exists,
            facts,
        ) matches Ok(plan) ==> target_of(root, arguments, found, is_dir) == Some(plan.target)),
        tools::patch_of(arguments) is Err ==> target_of(root, arguments, found, is_dir) is None,
{
}

} // verus!
