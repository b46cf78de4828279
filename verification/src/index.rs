//! The index for semantic search: what is indexed again and what is left out, how far it lags
//! behind, and what a search shows.
//!
//! Scores are floating-point numbers, so hits come in here in order and scores as they are shown.
use crate::batch;
use crate::config::Profile;
use crate::number;
use crate::number::{count, in_base, number as number_text};
use crate::scan;
use crate::scan::is_blank;
use crate::split;
use crate::split::join;
use crate::table;
use crate::table::Table;
use crate::text;
use crate::text::{cat, cat3, holds, same};
use crate::tools::{ToolError, SEARCH_CODE_TOOL};
use vstd::prelude::*;
use vstd::string::*;

verus! {

broadcast use crate::text::group_views;

/// How many pieces of text are embedded with one request.
pub const EMBEDDING_BATCH_SIZE: usize = 64;

/// This many failures with no success mean that the endpoint fails, and not the files.
pub const SYSTEMIC_INDEX_FAILURES: usize = 3;

/// How many hits a search shows.
pub const SEARCH_CODE_RESULTS: usize = 8;

// ---------------------------------------------------------------------------------------------
// Hashes
// ---------------------------------------------------------------------------------------------

/// The hash that a fresh `std::collections::hash_map::DefaultHasher` gives a text.
pub uninterp spec fn hash_value(content: Seq<char>) -> u64;

/// `std::hash::BuildHasher::hash_one` of a builder that makes every hasher with
/// `DefaultHasher::default`. All hashers made so are the same, so the hash depends on the text
/// alone.
#[verifier::external_body]
fn default_hash(content: &str) -> (r: u64)
    ensures
        r == hash_value(content@),
{
    std::hash::BuildHasher::hash_one(
        &std::hash::BuildHasherDefault::<std::collections::hash_map::DefaultHasher>::default(),
        content,
    )
}

/// A hash as it is stored.
pub fn hash_text(hash: u64) -> (r: String)
    ensures
        r@ == number::digits(hash as nat, 16),
{
    in_base(hash as u128, 16)
}

/// The hash of a text as it is stored.
pub open spec fn hash_of(content: Seq<char>) -> Seq<char> {
    number::digits(hash_value(content) as nat, 16)
}

/// The hash of a text, to tell whether it changed.
pub fn content_hash(content: &str) -> (r: String)
    ensures
        r@ == hash_of(content@),
{
    hash_text(default_hash(content))
}

// ---------------------------------------------------------------------------------------------
// Indexing
// ---------------------------------------------------------------------------------------------

/// The model that the profile embeds texts with.
pub fn embedding_model(active: &Profile) -> (r: Result<String, &'static str>)
    ensures
        match r {
            Ok(model) => active.embedding_model == Some(model),
            Err(error) => active.embedding_model is None && error@
                == "this profile has no embedding_model configured; set one under [provider] or [profiles.*] in kamui.toml to use semantic search"@,
        },
{
    match &active.embedding_model {
        Some(model) => Ok(model.clone()),
        None => Err(
            "this profile has no embedding_model configured; set one under [provider] or [profiles.*] in kamui.toml to use semantic search",
        ),
    }
}

/// The batches that the pieces of a file are embedded in.
pub fn embedding_batches(pieces: usize) -> (r: Vec<(usize, usize)>)
    ensures
        batch::bounds(r@) == batch::ranges(pieces as nat, EMBEDDING_BATCH_SIZE as nat),
{
    batch::split_range(pieces, EMBEDDING_BATCH_SIZE)
}

/// An endpoint that gives back another number of vectors than it was given texts cannot be used.
pub fn check_batch(vectors: usize, pieces: usize, relative: &str) -> (r: Result<(), String>)
    ensures
        match r {
            Ok(_) => vectors == pieces,
            Err(error) => vectors != pieces && error@ == "embedding provider returned "@
                + number::decimal(vectors as nat) + " vector(s) for "@ + number::decimal(
                pieces as nat,
            ) + " chunk(s) in "@ + relative@,
        },
{
    if vectors == pieces {
        return Ok(());
    }
    let given = count(vectors);
    let asked = count(pieces);
    let mut error = cat3("embedding provider returned ", given.as_str(), " vector(s) for ");
    error.append(asked.as_str());
    error.append(" chunk(s) in ");
    error.append(relative);
    Err(error)
}

/// What the index has of a file: the hash of its text, and the model that it was embedded with.
pub open spec fn record_of(stored: Option<(String, String)>) -> Option<(Seq<char>, Seq<char>)> {
    match stored {
        Some(record) => Some((record.0@, record.1@)),
        None => None,
    }
}

/// Whether the index has a file as it is now.
pub fn is_current(stored: &Option<(String, String)>, hash: &str, model: &str) -> (r: bool)
    ensures
        r == (record_of(*stored) == Some((hash@, model@))),
{
    match stored {
        Some(record) => same(record.0.as_str(), hash) && same(record.1.as_str(), model),
        None => false,
    }
}

/// What is to be done with a file.
#[derive(Debug)]
pub enum Action {
    /// It is as it was indexed last time.
    Skip,
    /// It is embedded, and stored under the hash of its text.
    Embed { hash: String },
}

/// A run over the whole project.
#[derive(Debug)]
pub struct IndexRun {
    /// The files that are there.
    pub seen: Vec<String>,
    pub indexed: usize,
    pub skipped: usize,
    pub pieces: usize,
    /// The files that could not be indexed, and why.
    pub failed: Vec<String>,
}

/// What an [`IndexRun`] stands for.
#[verifier::ext_equal]
pub struct RunModel {
    pub seen: Seq<Seq<char>>,
    pub indexed: int,
    pub skipped: int,
    pub pieces: int,
    pub failed: Seq<Seq<char>>,
}

impl View for IndexRun {
    type V = RunModel;

    open spec fn view(&self) -> RunModel {
        RunModel {
            seen: text::views(self.seen@),
            indexed: self.indexed as int,
            skipped: self.skipped as int,
            pieces: self.pieces as int,
            failed: text::views(self.failed@),
        }
    }
}

/// What is told of a run.
pub open spec fn run_summary(run: RunModel, removed: nat, total: int) -> Seq<char> {
    let first = "Indexed "@ + number::decimal(run.indexed as nat) + " file(s) ("@
        + number::decimal(run.pieces as nat) + " new chunks), skipped "@ + number::decimal(
        run.skipped as nat,
    ) + " unchanged, removed "@ + number::decimal(removed) + " deleted. "@ + number::decimal(
        total as nat,
    ) + " chunk(s) total."@;
    let failed = if run.failed.len() == 0 {
        seq![]
    } else {
        " Could not index "@ + number::decimal(run.failed.len()) + ": "@ + split::joined(
            run.failed,
            "; "@,
        )
    };
    first + failed
}

/// The run after one more file with text was met. One that the index has already is skipped.
pub open spec fn met(run: RunModel, relative: Seq<char>, current: bool) -> RunModel {
    RunModel {
        seen: run.seen.push(relative),
        skipped: if current {
            run.skipped + 1
        } else {
            run.skipped
        },
        ..run
    }
}

/// The run after one more file failed.
pub open spec fn with_failure(run: RunModel, relative: Seq<char>, error: Seq<char>) -> RunModel {
    RunModel { failed: run.failed.push(relative + " ("@ + error + ")"@), ..run }
}

/// Nothing succeeded and several files failed, so that going on would only repeat the failure.
pub open spec fn systemic(run: RunModel) -> bool {
    run.indexed == 0 && run.failed.len() >= SYSTEMIC_INDEX_FAILURES
}

impl IndexRun {
    /// A run begins.
    pub fn new() -> (r: IndexRun)
        ensures
            r@ == (RunModel {
                seen: seq![],
                indexed: 0,
                skipped: 0,
                pieces: 0,
                failed: seq![],
            }),
    {
        let run = IndexRun {
            seen: Vec::new(),
            indexed: 0,
            skipped: 0,
            pieces: 0,
            failed: Vec::new(),
        };
        assert(run@.seen =~= seq![]);
        assert(run@.failed =~= seq![]);
        run
    }

    /// A file is there.
    pub fn see(&mut self, relative: &str)
        ensures
            final(self)@ == (RunModel { seen: old(self)@.seen.push(relative@), ..old(self)@ }),
    {
        self.seen.push(relative.to_owned());
    }

    /// A file whose text has the given hash is there: it is skipped exactly where the index has it
    /// under that hash and the model.
    pub fn meet_hashed(
        &mut self,
        relative: &str,
        stored: &Option<(String, String)>,
        hash: String,
        model: &str,
    ) -> (r: Action)
        requires
            old(self)@.skipped < usize::MAX,
        ensures
            ({
                let current = record_of(*stored) == Some((hash@, model@));
                &&& final(self)@ == met(old(self)@, relative@, current)
                &&& match r {
                    Action::Skip => current,
                    Action::Embed { hash: under } => !current && under@ == hash@,
                }
            }),
    {
        self.see(relative);
        if is_current(stored, hash.as_str(), model) {
            self.skipped += 1;
            Action::Skip
        } else {
            Action::Embed { hash }
        }
    }

    /// A file with text is there: it is skipped exactly where the index has that text under the
    /// model.
    pub fn meet(
        &mut self,
        relative: &str,
        stored: &Option<(String, String)>,
        content: &str,
        model: &str,
    ) -> (r: Action)
        requires
            old(self)@.skipped < usize::MAX,
        ensures
            ({
                let current = record_of(*stored) == Some((hash_of(content@), model@));
                &&& final(self)@ == met(old(self)@, relative@, current)
                &&& match r {
                    Action::Skip => current,
                    Action::Embed { hash } => !current && hash@ == hash_of(content@),
                }
            }),
    {
        self.meet_hashed(relative, stored, content_hash(content), model)
    }

    /// A file was indexed, in so many pieces.
    pub fn succeed(&mut self, pieces: usize)
        requires
            old(self)@.indexed < usize::MAX,
            old(self)@.pieces + pieces <= usize::MAX,
        ensures
            final(self)@ == (RunModel {
                indexed: old(self)@.indexed + 1,
                pieces: old(self)@.pieces + pieces,
                ..old(self)@
            }),
    {
        self.indexed += 1;
        self.pieces += pieces;
    }

    /// A file could not be indexed. The run goes on, unless nothing succeeded and several files
    /// failed by now: then it ends with an error.
    pub fn fail(&mut self, relative: &str, error: &str) -> (r: Result<(), String>)
        ensures
            final(self)@ == with_failure(old(self)@, relative@, error@),
            match r {
                Ok(_) => !systemic(final(self)@),
                Err(words) => systemic(final(self)@) && words@ == "indexing failed on the first "@
                    + number::decimal(final(self)@.failed.len()) + " file(s): "@ + error@,
            },
    {
        let ghost before = self@.failed;
        let mut line = cat3(relative, " (", error);
        line.append(")");
        let ghost model = line@;
        self.failed.push(line);
        assert(text::views(self.failed@) =~= before.push(model));
        if self.indexed == 0 && self.failed.len() >= SYSTEMIC_INDEX_FAILURES {
            let n = count(self.failed.len());
            let mut words = cat3("indexing failed on the first ", n.as_str(), " file(s): ");
            words.append(error);
            return Err(words);
        }
        Ok(())
    }

    /// Whether a file is there.
    pub fn has_seen(&self, path: &str) -> (r: bool)
        ensures
            r == self@.seen.contains(path@),
    {
        holds(&self.seen, path)
    }

    /// The indexed files that are not there any more.
    pub fn gone(&self, indexed: &[String]) -> (r: Vec<String>)
        ensures
            text::views(r@) == text::views(indexed@).filter(
                |path: Seq<char>| !self@.seen.contains(path),
            ),
    {
        let ghost all = text::views(indexed@);
        let ghost lost = |path: Seq<char>| !self@.seen.contains(path);
        let mut out: Vec<String> = Vec::new();
        let mut i: usize = 0;
        proof {
            reveal(Seq::filter);
            assert(all.take(0) =~= seq![]);
        }
        assert(text::views(out@) =~= all.take(0).filter(lost));
        while i < indexed.len()
            invariant
                i <= indexed.len(),
                all == text::views(indexed@),
                lost == (|path: Seq<char>| !self@.seen.contains(path)),
                text::views(out@) == all.take(i as int).filter(lost),
            decreases indexed.len() - i,
        {
            proof {
                reveal(Seq::filter);
                assert(all.take(i + 1).drop_last() =~= all.take(i as int));
                assert(all.take(i + 1).last() == indexed@[i as int]@);
            }
            if !self.has_seen(indexed[i].as_str()) {
                out.push(indexed[i].clone());
            }
            i += 1;
        }
        assert(all.take(i as int) =~= all);
        out
    }

    /// What is told of a run.
    pub fn summary(&self, removed: usize, total: u64) -> (r: String)
        ensures
            r@ == run_summary(self@, removed as nat, total as int),
    {
        let indexed = count(self.indexed);
        let pieces = count(self.pieces);
        let skipped = count(self.skipped);
        let deleted = count(removed);
        let all = number_text(total);
        let mut out = cat3("Indexed ", indexed.as_str(), " file(s) (");
        out.append(pieces.as_str());
        out.append(" new chunks), skipped ");
        out.append(skipped.as_str());
        out.append(" unchanged, removed ");
        out.append(deleted.as_str());
        out.append(" deleted. ");
        out.append(all.as_str());
        out.append(" chunk(s) total.");
        let mut failed = String::new();
        assert(failed@ =~= seq![]);
        if self.failed.len() > 0 {
            let n = count(self.failed.len());
            let list = join(&self.failed, "; ");
            failed = cat3(" Could not index ", n.as_str(), ": ");
            failed.append(list.as_str());
        }
        out.append(failed.as_str());
        out
    }
}

/// A file that the endpoint refuses does not stop a run in which anything succeeded, and the report
/// names every file that failed.
pub proof fn law_one_bad_file_stops_nothing(run: RunModel, relative: Seq<char>, error: Seq<char>)
    requires
        run.indexed > 0,
    ensures
        !systemic(with_failure(run, relative, error)),
        with_failure(run, relative, error).failed.last() == relative + " ("@ + error + ")"@,
        with_failure(run, relative, error).indexed == run.indexed,
{
}

// ---------------------------------------------------------------------------------------------
// Keeping up with a turn
// ---------------------------------------------------------------------------------------------

/// What becomes of an edited file in the index.
#[derive(Clone, Copy, Debug, PartialEq, Eq, Structural)]
pub enum Refresh {
    /// It was never indexed, and is not now.
    Ignore,
    /// It cannot be read any more, and leaves the index.
    Drop,
    /// It is as it was indexed.
    Keep,
    /// It is indexed again.
    Embed,
}

/// What becomes of an edited file in the index. `hash` is that of its text, where it can be read,
/// and `current` tells whether the index has that text under the same model.
pub open spec fn refreshed(stored: Option<Seq<char>>, hash: Option<Seq<char>>, current: bool) -> Refresh {
    match stored {
        None => Refresh::Ignore,
        Some(before) => match hash {
            None => Refresh::Drop,
            Some(now) => if now == before && current {
                Refresh::Keep
            } else {
                Refresh::Embed
            },
        },
    }
}

/// What becomes of an edited file in the index.
pub fn refresh_action(stored: Option<&str>, hash: Option<&str>, current: bool) -> (r: Refresh)
    ensures
        r == refreshed(text::str_view(stored), text::str_view(hash), current),
{
    match stored {
        None => Refresh::Ignore,
        Some(before) => match hash {
            None => Refresh::Drop,
            Some(now) => if same(now, before) && current {
                Refresh::Keep
            } else {
                Refresh::Embed
            },
        },
    }
}

/// What becomes of an edited file in the index, from what the index has of it, from its text, where
/// it can be read, and from the profile's embedding model. Without such a model nothing is done.
pub open spec fn refreshed_file(
    stored: Option<(Seq<char>, Seq<char>)>,
    content: Option<Seq<char>>,
    model: Option<Seq<char>>,
) -> Refresh {
    let hash = match content {
        Some(content) => Some(hash_of(content)),
        None => None,
    };
    match model {
        None => Refresh::Ignore,
        Some(model) => refreshed(
            match stored {
                Some(record) => Some(record.0),
                None => None,
            },
            hash,
            hash is Some && stored == Some((hash->0, model)),
        ),
    }
}

/// What becomes of an edited file in the index.
pub fn refresh(
    stored: &Option<(String, String)>,
    content: Option<&str>,
    model: Option<&str>,
) -> (r: Refresh)
    ensures
        r == refreshed_file(record_of(*stored), text::str_view(content), text::str_view(model)),
{
    let model = match model {
        Some(model) => model,
        None => {
            return Refresh::Ignore;
        },
    };
    match stored {
        None => Refresh::Ignore,
        Some(record) => match content {
            None => Refresh::Drop,
            Some(content) => {
                let hash = content_hash(content);
                let current = is_current(stored, hash.as_str(), model);
                refresh_action(Some(record.0.as_str()), Some(hash.as_str()), current)
            },
        },
    }
}

/// A file that was never indexed is left alone, whatever happened to it, and without an embedding
/// model every file is.
pub proof fn law_refresh_adds_no_file(
    stored: Option<(Seq<char>, Seq<char>)>,
    content: Option<Seq<char>>,
    model: Option<Seq<char>>,
)
    ensures
        refreshed_file(None, content, model) == Refresh::Ignore,
        refreshed_file(stored, content, None) == Refresh::Ignore,
{
}

/// An edited file is indexed again exactly where the index has it, it can be read, and its text or
/// the model is another than when it was indexed.
pub proof fn law_refresh_follows_the_text(
    stored: (Seq<char>, Seq<char>),
    content: Seq<char>,
    model: Seq<char>,
)
    ensures
        refreshed_file(Some(stored), Some(content), Some(model)) == if stored == (
            hash_of(content),
            model,
        ) {
            Refresh::Keep
        } else {
            Refresh::Embed
        },
        refreshed_file(Some(stored), None, Some(model)) == Refresh::Drop,
{
}

/// What is told after edited files were indexed again, and whether it is a failure.
pub open spec fn refresh_words(outcome: Result<usize, Seq<char>>) -> Option<(Seq<char>, bool)> {
    match outcome {
        Ok(n) => if n == 0 {
            None
        } else {
            Some(
                (
                    "refreshed "@ + number::decimal(n as nat) + " file(s) in the code index"@,
                    false,
                ),
            )
        },
        Err(error) => Some(
            ("index refresh failed: "@ + error + " \u{2014} /index rebuilds it"@, true),
        ),
    }
}

/// What is told after edited files were indexed again, and whether it is a failure; nothing where
/// there was nothing to do.
pub fn index_refresh_message(outcome: Result<usize, String>) -> (r: Option<(String, bool)>)
    ensures
        match r {
            Some(told) => refresh_words(
                match outcome {
                    Ok(n) => Ok(n),
                    Err(error) => Err(error@),
                },
            ) == Some((told.0@, told.1)),
            None => outcome == Ok::<usize, String>(0),
        },
{
    match outcome {
        Ok(n) => {
            if n == 0 {
                return None;
            }
            let digits = count(n);
            Some((cat3("refreshed ", digits.as_str(), " file(s) in the code index"), false))
        },
        Err(error) => Some(
            (
                cat3(
                    "index refresh failed: ",
                    error.as_str(),
                    " \u{2014} /index rebuilds it",
                ),
                true,
            ),
        ),
    }
}

// ---------------------------------------------------------------------------------------------
// Staleness
// ---------------------------------------------------------------------------------------------

/// How far the index lags behind the files.
#[derive(Clone, Copy, Debug, PartialEq, Eq, Structural)]
pub struct IndexStaleness {
    pub changed: usize,
    pub added: usize,
    pub removed: usize,
}

/// What is told of it: the counts that are not zero.
pub open spec fn staleness_parts(staleness: IndexStaleness) -> Seq<Seq<char>> {
    (if staleness.changed > 0 {
        seq![number::decimal(staleness.changed as nat) + " changed"@]
    } else {
        seq![]
    }) + (if staleness.added > 0 {
        seq![number::decimal(staleness.added as nat) + " new"@]
    } else {
        seq![]
    }) + (if staleness.removed > 0 {
        seq![number::decimal(staleness.removed as nat) + " removed"@]
    } else {
        seq![]
    })
}

impl IndexStaleness {
    /// Whether the index is up to date.
    pub fn is_fresh(&self) -> (r: bool)
        ensures
            r == (self.changed == 0 && self.added == 0 && self.removed == 0),
    {
        self.changed == 0 && self.added == 0 && self.removed == 0
    }

    /// The counts that are not zero, in a line.
    pub fn describe(&self) -> (r: String)
        ensures
            r@ == split::joined(staleness_parts(*self), ", "@),
    {
        let mut parts: Vec<String> = Vec::new();
        if self.changed > 0 {
            let n = count(self.changed);
            parts.push(cat(n.as_str(), " changed"));
        }
        if self.added > 0 {
            let n = count(self.added);
            parts.push(cat(n.as_str(), " new"));
        }
        if self.removed > 0 {
            let n = count(self.removed);
            parts.push(cat(n.as_str(), " removed"));
        }
        assert(text::views(parts@) =~= staleness_parts(*self));
        join(&parts, ", ")
    }
}

/// A file was changed after it was indexed.
pub open spec fn is_changed(file: (String, Option<i64>), indexed: Seq<(String, i64)>) -> bool {
    table::lookup(indexed, file.0@) matches Some(at) && (file.1 matches Some(modified) && modified
        > at)
}

/// A file is not in the index.
pub open spec fn is_added(file: (String, Option<i64>), indexed: Seq<(String, i64)>) -> bool {
    table::lookup(indexed, file.0@) is None
}

/// An indexed file is not there.
pub open spec fn is_gone(entry: (String, i64), walked: Seq<(String, Option<i64>)>) -> bool {
    table::lookup(walked, entry.0@) is None
}

/// How many files were changed after they were indexed.
pub open spec fn changed_count(walked: Seq<(String, Option<i64>)>, indexed: Seq<(String, i64)>) -> nat
    decreases walked.len(),
{
    if walked.len() == 0 {
        0
    } else {
        changed_count(walked.drop_last(), indexed) + if is_changed(walked.last(), indexed) {
            1nat
        } else {
            0
        }
    }
}

/// How many files are not in the index.
pub open spec fn added_count(walked: Seq<(String, Option<i64>)>, indexed: Seq<(String, i64)>) -> nat
    decreases walked.len(),
{
    if walked.len() == 0 {
        0
    } else {
        added_count(walked.drop_last(), indexed) + if is_added(walked.last(), indexed) {
            1nat
        } else {
            0
        }
    }
}

/// How many indexed files are not there.
pub open spec fn gone_count(entries: Seq<(String, i64)>, walked: Seq<(String, Option<i64>)>) -> nat
    decreases entries.len(),
{
    if entries.len() == 0 {
        0
    } else {
        gone_count(entries.drop_last(), walked) + if is_gone(entries.last(), walked) {
            1nat
        } else {
            0
        }
    }
}

fn is_walked(walked: &[(String, Option<i64>)], path: &str) -> (r: bool)
    ensures
        r == (table::lookup(walked@, path@) is Some),
{
    let mut i: usize = 0;
    while i < walked.len()
        invariant
            i <= walked.len(),
            forall|j: int| 0 <= j < i ==> (#[trigger] walked@[j]).0@ != path@,
        decreases walked.len() - i,
    {
        if same(walked[i].0.as_str(), path) {
            proof {
                table::lemma_index_unique(walked@, path@, i as nat);
            }
            return true;
        }
        i += 1;
    }
    proof {
        table::lemma_index_unique(walked@, path@, i as nat);
    }
    false
}

/// How far the index lags behind the files: `indexed` holds when each file was indexed, and
/// `walked` when each file that is there was changed, as far as is known. Nothing is told of a
/// project that was never indexed.
pub fn index_staleness(indexed: &Table<i64>, walked: &[(String, Option<i64>)]) -> (r: Option<
    IndexStaleness,
>)
    requires
        indexed.wf(),
    ensures
        match r {
            Some(staleness) => indexed.entries@.len() > 0 && staleness.changed == changed_count(
                walked@,
                indexed.entries@,
            ) && staleness.added == added_count(walked@, indexed.entries@) && staleness.removed
                == gone_count(indexed.entries@, walked@),
            None => indexed.entries@.len() == 0,
        },
{
    if indexed.is_empty() {
        return None;
    }
    let mut changed: usize = 0;
    let mut added: usize = 0;
    let mut i: usize = 0;
    while i < walked.len()
        invariant
            i <= walked.len(),
            changed <= i,
            added <= i,
            changed == changed_count(walked@.take(i as int), indexed.entries@),
            added == added_count(walked@.take(i as int), indexed.entries@),
        decreases walked.len() - i,
    {
        assert(walked@.take(i + 1).drop_last() =~= walked@.take(i as int));
        assert(walked@.take(i + 1).last() == walked@[i as int]);
        match indexed.get(walked[i].0.as_str()) {
            Some(at) => {
                if let Some(modified) = walked[i].1 {
                    if modified > *at {
                        changed += 1;
                    }
                }
            },
            None => {
                added += 1;
            },
        }
        i += 1;
    }
    assert(walked@.take(i as int) =~= walked@);
    let mut removed: usize = 0;
    let mut k: usize = 0;
    while k < indexed.entries.len()
        invariant
            k <= indexed.entries.len(),
            removed <= k,
            removed == gone_count(indexed.entries@.take(k as int), walked@),
        decreases indexed.entries.len() - k,
    {
        assert(indexed.entries@.take(k + 1).drop_last() =~= indexed.entries@.take(k as int));
        assert(indexed.entries@.take(k + 1).last() == indexed.entries@[k as int]);
        if !is_walked(walked, indexed.entries[k].0.as_str()) {
            removed += 1;
        }
        k += 1;
    }
    assert(indexed.entries@.take(k as int) =~= indexed.entries@);
    Some(IndexStaleness { changed, added, removed })
}

// ---------------------------------------------------------------------------------------------
// Searching
// ---------------------------------------------------------------------------------------------

/// What is told where nothing was indexed.
pub const NO_INDEX: &'static str = "no code index found for this project; run /index first";

/// Whether a search can be made: it needs a query and an index.
pub fn check_search(query: &str, pieces: u64) -> (r: Result<(), ToolError<String>>)
    ensures
        match r {
            Ok(_) => !scan::blank(query@) && pieces > 0,
            Err(error) => if scan::blank(query@) {
                error@ == (ToolError::Empty { tool: SEARCH_CODE_TOOL@, key: "query"@ })
            } else {
                pieces == 0 && error@ == (ToolError::Failed { cause: NO_INDEX@ })
            },
        },
{
    if is_blank(query) {
        return Err(
            ToolError::Empty { tool: SEARCH_CODE_TOOL.to_owned(), key: "query".to_owned() },
        );
    }
    if pieces == 0 {
        return Err(ToolError::Failed { cause: NO_INDEX.to_owned() });
    }
    Ok(())
}

/// A piece of text that a search found.
#[derive(Debug)]
pub struct CodeHit {
    pub path: String,
    pub start_line: u64,
    pub end_line: u64,
    pub score: String,
    pub content: String,
}

/// One hit.
pub open spec fn hit_text(hit: CodeHit) -> Seq<char> {
    hit.path@ + ":"@ + number::decimal(hit.start_line as nat) + "-"@ + number::decimal(
        hit.end_line as nat,
    ) + " (score="@ + hit.score@ + ")\n"@ + hit.content@
}

/// The best hits.
pub open spec fn hits_text(hits: Seq<CodeHit>) -> Seq<char> {
    let best = if hits.len() > SEARCH_CODE_RESULTS {
        hits.take(SEARCH_CODE_RESULTS as int)
    } else {
        hits
    };
    split::joined(best.map_values(|hit: CodeHit| hit_text(hit)), "\n\n"@)
}

/// The best hits. They come in with the best one first; without any, nothing was indexed.
pub fn format_hits(hits: &[CodeHit]) -> (r: Result<String, ToolError<String>>)
    ensures
        match r {
            Ok(found) => hits@.len() > 0 && found@ == hits_text(hits@),
            Err(error) => hits@.len() == 0 && error@ == (ToolError::Failed { cause: NO_INDEX@ }),
        },
{
    if hits.len() == 0 {
        return Err(ToolError::Failed { cause: NO_INDEX.to_owned() });
    }
    let most = if hits.len() > SEARCH_CODE_RESULTS {
        SEARCH_CODE_RESULTS
    } else {
        hits.len()
    };
    let ghost best = hits@.take(most as int);
    let ghost wanted = best.map_values(|hit: CodeHit| hit_text(hit));
    assert(hits@.take(hits@.len() as int) =~= hits@);
    let mut parts: Vec<String> = Vec::new();
    let mut i: usize = 0;
    while i < most
        invariant
            i <= most <= hits.len(),
            best == hits@.take(most as int),
            wanted == best.map_values(|hit: CodeHit| hit_text(hit)),
            text::views(parts@) =~= wanted.take(i as int),
        decreases most - i,
    {
        let hit = &hits[i];
        let from = number_text(hit.start_line);
        let to = number_text(hit.end_line);
        let mut part = cat3(hit.path.as_str(), ":", from.as_str());
        part.append("-");
        part.append(to.as_str());
        part.append(" (score=");
        part.append(hit.score.as_str());
        part.append(")\n");
        part.append(hit.content.as_str());
        assert(part@ == hit_text(best[i as int]));
        parts.push(part);
        i += 1;
    }
    assert(wanted.take(i as int) =~= wanted);
    Ok(join(&parts, "\n\n"))
}

// ---------------------------------------------------------------------------------------------
// What indexing tells
// ---------------------------------------------------------------------------------------------

/// The report tells every count and names every file that could not be indexed.
#[verifier::rlimit(50)]
pub proof fn law_index_reports_tell_everything(run: RunModel, removed: nat, total: int, i: int)
    ensures
        text::stands_in(
            run_summary(run, removed, total),
            "Indexed "@ + number::decimal(run.indexed as nat) + " file(s) ("@ + number::decimal(
                run.pieces as nat,
            ) + " new chunks)"@,
        ),
        text::stands_in(
            run_summary(run, removed, total),
            "skipped "@ + number::decimal(run.skipped as nat) + " unchanged, removed "@
                + number::decimal(removed) + " deleted. "@ + number::decimal(total as nat)
                + " chunk(s) total."@,
        ),
        0 <= i < run.failed.len() ==> text::stands_in(
            run_summary(run, removed, total),
            run.failed[i],
        ),
{
    let first = "Indexed "@ + number::decimal(run.indexed as nat) + " file(s) ("@ + number::decimal(
        run.pieces as nat,
    ) + " new chunks)"@;
    let second = "skipped "@ + number::decimal(run.skipped as nat) + " unchanged, removed "@
        + number::decimal(removed) + " deleted. "@ + number::decimal(total as nat)
        + " chunk(s) total."@;
    let failed = if run.failed.len() == 0 {
        seq![]
    } else {
        " Could not index "@ + number::decimal(run.failed.len()) + ": "@ + split::joined(
            run.failed,
            "; "@,
        )
    };
    assert(" new chunks), skipped "@ =~= " new chunks)"@ + ", "@ + "skipped "@) by {
        reveal_strlit(" new chunks), skipped ");
        reveal_strlit(" new chunks)");
        reveal_strlit(", ");
        reveal_strlit("skipped ");
    }
    let report = run_summary(run, removed, total);
    assert(report =~= first + ", "@ + second + failed);
    assert(text::stands_in(report, first)) by {
        broadcast use text::group_stands;

    }
    assert(text::stands_in(report, second)) by {
        broadcast use text::group_stands;

    }
    if 0 <= i < run.failed.len() {
        split::law_joining_keeps_every_part(run.failed, run.failed, "; "@);
        assert(text::stands_in(report, run.failed[i])) by {
            broadcast use text::group_stands;

        }
    }
}

/// A file that is met is seen, whether it has to be indexed or not, and only one that need not be is
/// counted as skipped; a failure names its file and why, and forgets no other.
#[verifier::rlimit(50)]
pub proof fn law_every_file_met_is_seen(
    run: RunModel,
    relative: Seq<char>,
    current: bool,
    error: Seq<char>,
)
    ensures
        met(run, relative, current).seen == run.seen.push(relative),
        met(run, relative, true).skipped == run.skipped + 1,
        met(run, relative, false).skipped == run.skipped,
        met(run, relative, current).indexed == run.indexed,
        met(run, relative, current).failed == run.failed,
        run.failed.is_prefix_of(with_failure(run, relative, error).failed),
        with_failure(run, relative, error).failed.len() == run.failed.len() + 1,
        text::stands_in(with_failure(run, relative, error).failed.last(), relative),
        text::stands_in(with_failure(run, relative, error).failed.last(), error),
        with_failure(run, relative, error).seen == run.seen,
{
    broadcast use text::group_stands;

}

/// Every hit is shown, up to as many as are shown at all: where it stands, and its text whole.
#[verifier::rlimit(50)]
pub proof fn law_every_hit_is_shown(hits: Seq<CodeHit>, i: int)
    requires
        0 <= i < hits.len(),
        i < SEARCH_CODE_RESULTS,
    ensures
        text::stands_in(hits_text(hits), hits[i].content@),
        text::stands_in(
            hits_text(hits),
            hits[i].path@ + ":"@ + number::decimal(hits[i].start_line as nat) + "-"@
                + number::decimal(hits[i].end_line as nat),
        ),
        text::stands_in(hits_text(hits), hits[i].score@),
{
    let best = if hits.len() > SEARCH_CODE_RESULTS {
        hits.take(SEARCH_CODE_RESULTS as int)
    } else {
        hits
    };
    let texts = best.map_values(|hit: CodeHit| hit_text(hit));
    let place = hits[i].path@ + ":"@ + number::decimal(hits[i].start_line as nat) + "-"@
        + number::decimal(hits[i].end_line as nat);
    assert(texts[i] == hit_text(hits[i]));
    split::law_joining_keeps_every_part(texts, texts, "\n\n"@);
    assert(text::stands_in(texts[i], hits[i].content@)) by {
        broadcast use text::group_stands;

    }
    assert(text::stands_in(texts[i], place)) by {
        broadcast use text::group_stands;

    }
    assert(text::stands_in(texts[i], hits[i].score@)) by {
        broadcast use text::group_stands;

    }
    text::lemma_stands_inside(hits_text(hits), texts[i], hits[i].content@);
    text::lemma_stands_inside(hits_text(hits), texts[i], place);
    text::lemma_stands_inside(hits_text(hits), texts[i], hits[i].score@);
}

/// Every file is counted: those of two lists together are those of the one and those of the other,
/// and one file counts as new where the index does not know it, and as changed where the index knows
/// it from before its last change.
pub proof fn law_every_stale_file_is_counted(
    first: Seq<(String, Option<i64>)>,
    second: Seq<(String, Option<i64>)>,
    file: (String, Option<i64>),
    indexed: Seq<(String, i64)>,
)
    ensures
        changed_count(first + second, indexed) == changed_count(first, indexed) + changed_count(
            second,
            indexed,
        ),
        added_count(first + second, indexed) == added_count(first, indexed) + added_count(
            second,
            indexed,
        ),
        table::lookup(indexed, file.0@) is None ==> added_count(seq![file], indexed) == 1
            && changed_count(seq![file], indexed) == 0,
        table::lookup(indexed, file.0@) matches Some(at) ==> added_count(seq![file], indexed) == 0
            && changed_count(seq![file], indexed) == if file.1 is Some && file.1->0 > at {
            1nat
        } else {
            0
        },
    decreases second.len(),
{
    reveal_with_fuel(changed_count, 2);
    reveal_with_fuel(added_count, 2);
    assert(seq![file].drop_last() =~= seq![]);
    if second.len() == 0 {
        assert(first + second =~= first);
    } else {
        law_every_stale_file_is_counted(first, second.drop_last(), file, indexed);
        assert((first + second).drop_last() =~= first + second.drop_last());
        assert((first + second).last() == second.last());
    }
}

/// Every indexed file that is gone is counted, and no other.
pub proof fn law_every_file_gone_is_counted(
    first: Seq<(String, i64)>,
    second: Seq<(String, i64)>,
    entry: (String, i64),
    walked: Seq<(String, Option<i64>)>,
)
    ensures
        gone_count(first + second, walked) == gone_count(first, walked) + gone_count(second, walked),
        gone_count(seq![entry], walked) == if table::lookup(walked, entry.0@) is None {
            1nat
        } else {
            0
        },
    decreases second.len(),
{
    reveal_with_fuel(gone_count, 2);
    assert(seq![entry].drop_last() =~= seq![]);
    if second.len() == 0 {
        assert(first + second =~= first);
    } else {
        law_every_file_gone_is_counted(first, second.drop_last(), entry, walked);
        assert((first + second).drop_last() =~= first + second.drop_last());
        assert((first + second).last() == second.last());
    }
}

/// What is told of an index that is out of date names every count that is not zero.
pub proof fn law_staleness_names_every_count(staleness: IndexStaleness)
    ensures
        ({
            let told = split::joined(staleness_parts(staleness), ", "@);
            &&& staleness.changed > 0 ==> text::stands_in(
                told,
                number::decimal(staleness.changed as nat) + " changed"@,
            )
            &&& staleness.added > 0 ==> text::stands_in(
                told,
                number::decimal(staleness.added as nat) + " new"@,
            )
            &&& staleness.removed > 0 ==> text::stands_in(
                told,
                number::decimal(staleness.removed as nat) + " removed"@,
            )
        }),
{
    let parts = staleness_parts(staleness);
    if parts.len() > 0 {
        split::law_joining_keeps_every_part(parts, parts, ", "@);
    }
    if staleness.changed > 0 {
        assert(parts[0] == number::decimal(staleness.changed as nat) + " changed"@);
    }
    if staleness.added > 0 {
        let k: int = if staleness.changed > 0 {
            1
        } else {
            0
        };
        assert(parts[k] == number::decimal(staleness.added as nat) + " new"@);
    }
    if staleness.removed > 0 {
        assert(parts[parts.len() - 1] == number::decimal(staleness.removed as nat) + " removed"@);
    }
}

/// A refresh tells how many files it renewed, is silent where it renewed none, and tells why it
/// failed, marked as a failure.
#[verifier::rlimit(50)]
pub proof fn law_refreshes_are_told(n: usize, error: Seq<char>)
    ensures
        refresh_words(Ok(0)) is None,
        n > 0 ==> (refresh_words(Ok(n)) matches Some(told) && !told.1 && text::stands_in(
            told.0,
            number::decimal(n as nat),
        )),
        refresh_words(Err(error)) matches Some(told) && told.1 && text::stands_in(told.0, error),
{
    broadcast use text::group_stands;

}

} // verus!
