//! Remembering facts: what is let in, and what the model is told of it.
use crate::bytes;
use crate::bytes::front_within;
use crate::number;
use crate::number::number as number_text;
use crate::scan;
use crate::scan::trim;
use crate::text;
use crate::text::{cat, cat3, chars_of};
use crate::tools::{FORGET_TOOL, REMEMBER_TOOL};
use vstd::prelude::*;
use vstd::string::*;

verus! {

/// How many bytes of facts may be remembered: each of them goes with every request.
pub const MAX_MEMORY_BYTES: u64 = 4096;

/// Why a fact was not remembered, changed or forgotten. `T` is text: `String` in a value,
/// `Seq<char>` in its model.
#[derive(Debug)]
pub enum MemoryError<T> {
    /// The arguments are no JSON of the right form.
    NotJson { cause: T },
    /// An argument is blank.
    Empty { tool: T, key: T },
    /// An argument of an update is blank.
    EmptyUpdate,
    /// There is no room.
    Full { existing: u64 },
    /// Not exactly one fact matches.
    NoMatch { matching: T },
    /// What the database could not do.
    Failed { cause: T },
}

impl View for MemoryError<String> {
    type V = MemoryError<Seq<char>>;

    open spec fn view(&self) -> MemoryError<Seq<char>> {
        match self {
            MemoryError::NotJson { cause } => MemoryError::NotJson { cause: cause@ },
            MemoryError::Empty { tool, key } => MemoryError::Empty { tool: tool@, key: key@ },
            MemoryError::EmptyUpdate => MemoryError::EmptyUpdate,
            MemoryError::Full { existing } => MemoryError::Full { existing: *existing },
            MemoryError::NoMatch { matching } => MemoryError::NoMatch { matching: matching@ },
            MemoryError::Failed { cause } => MemoryError::Failed { cause: cause@ },
        }
    }
}

impl MemoryError<Seq<char>> {
    /// What the model reads.
    pub open spec fn words(self) -> Seq<char> {
        match self {
            MemoryError::NotJson { cause } => "tool arguments were not valid JSON: "@ + cause,
            MemoryError::Empty { tool, key } => tool + " requires a non-empty '"@ + key
                + "' argument"@,
            MemoryError::EmptyUpdate =>
                "update_memory requires non-empty 'matching' and 'fact' arguments"@,
            MemoryError::Full { existing } => "memory is full ("@ + number::decimal(
                existing as nat,
            ) + "/"@ + number::decimal(MAX_MEMORY_BYTES as nat)
                + " bytes); use update_memory or forget to make room before adding more"@,
            MemoryError::NoMatch { matching } => "no single remembered fact matches \""@ + matching
                + "\"; it may not exist, or the substring matches more than one entry"@,
            MemoryError::Failed { cause } => cause,
        }
    }
}

impl MemoryError<String> {
    /// What the model reads.
    pub fn message(&self) -> (r: String)
        ensures
            r@ == self@.words(),
    {
        match self {
            MemoryError::NotJson { cause } => cat(
                "tool arguments were not valid JSON: ",
                cause.as_str(),
            ),
            MemoryError::Empty { tool, key } => {
                let mut out = cat3(tool.as_str(), " requires a non-empty '", key.as_str());
                out.append("' argument");
                out
            },
            MemoryError::EmptyUpdate =>
                "update_memory requires non-empty 'matching' and 'fact' arguments".to_owned(),
            MemoryError::Full { existing } => {
                let used = number_text(*existing);
                let most = number_text(MAX_MEMORY_BYTES);
                let mut out = cat3("memory is full (", used.as_str(), "/");
                out.append(most.as_str());
                out.append(
                    " bytes); use update_memory or forget to make room before adding more",
                );
                out
            },
            MemoryError::NoMatch { matching } => cat3(
                "no single remembered fact matches \"",
                matching.as_str(),
                "\"; it may not exist, or the substring matches more than one entry",
            ),
            MemoryError::Failed { cause } => cause.clone(),
        }
    }
}

/// The model of what a step gives back.
pub open spec fn outcome(r: Result<String, MemoryError<String>>) -> Result<
    Seq<char>,
    MemoryError<Seq<char>>,
> {
    match r {
        Ok(value) => Ok(value@),
        Err(error) => Err(error@),
    }
}

/// The fact to remember, where there is one and there is room for it.
pub open spec fn remembered(fact: Seq<char>, existing: u64) -> Result<Seq<char>, MemoryError<Seq<char>>> {
    let inner = scan::trimmed(fact);
    if inner.len() == 0 {
        Err(MemoryError::Empty { tool: REMEMBER_TOOL@, key: "fact"@ })
    } else if existing + bytes::size(inner) > MAX_MEMORY_BYTES {
        Err(MemoryError::Full { existing })
    } else {
        Ok(inner)
    }
}

/// The fact to remember, without space around it. It is refused where it is blank, or where there is
/// no room for it beside the bytes that are there.
pub fn remember(fact: &str, existing: u64) -> (r: Result<String, MemoryError<String>>)
    ensures
        outcome(r) == remembered(fact@, existing),
{
    let inner = trim(fact);
    if inner.as_str().is_empty() {
        return Err(
            MemoryError::Empty { tool: REMEMBER_TOOL.to_owned(), key: "fact".to_owned() },
        );
    }
    if existing > MAX_MEMORY_BYTES {
        return Err(MemoryError::Full { existing });
    }
    let room: usize = (MAX_MEMORY_BYTES - existing) as usize;
    let chars = chars_of(inner.as_str());
    let fitting = front_within(&chars, room);
    proof {
        assert(inner@.take(inner@.len() as int) =~= inner@);
        if fitting < inner@.len() {
            bytes::lemma_size_monotonic(inner@, fitting + 1, inner@.len() as int);
        }
    }
    if fitting < chars.len() {
        return Err(MemoryError::Full { existing });
    }
    Ok(inner)
}

/// What is remembered never takes more than the bytes that are allowed.
pub proof fn law_memory_stays_within_bounds(fact: Seq<char>, existing: u64)
    requires
        remembered(fact, existing) is Ok,
    ensures
        existing + bytes::size(remembered(fact, existing)->Ok_0) <= MAX_MEMORY_BYTES,
        remembered(fact, existing)->Ok_0.len() > 0,
{
}

/// What the model is told after a fact was remembered.
pub fn told_remembered(fact: &str) -> (r: String)
    ensures
        r@ == "remembered: "@ + fact@,
{
    cat("remembered: ", fact)
}

/// The fact to change, and what to change it to; refused where either is blank.
pub fn update(matching: &str, fact: &str) -> (r: Result<(String, String), MemoryError<String>>)
    ensures
        match r {
            Ok(pair) => pair.0@ == scan::trimmed(matching@) && pair.1@ == scan::trimmed(fact@)
                && pair.0@.len() > 0 && pair.1@.len() > 0,
            Err(error) => error@ == MemoryError::<Seq<char>>::EmptyUpdate && (scan::trimmed(
                matching@,
            ).len() == 0 || scan::trimmed(fact@).len() == 0),
        },
{
    let wanted = trim(matching);
    let new = trim(fact);
    if wanted.as_str().is_empty() || new.as_str().is_empty() {
        return Err(MemoryError::EmptyUpdate);
    }
    Ok((wanted, new))
}

/// What the model is told after an update; not exactly one match is an error.
pub fn told_updated(matching: &str, fact: &str, found: bool) -> (r: Result<
    String,
    MemoryError<String>,
>)
    ensures
        outcome(r) == if found {
            Ok("updated memory matching \""@ + matching@ + "\" to: "@ + fact@)
        } else {
            Err(MemoryError::NoMatch { matching: matching@ })
        },
{
    if !found {
        return Err(MemoryError::NoMatch { matching: matching.to_owned() });
    }
    let mut out = cat3("updated memory matching \"", matching, "\" to: ");
    out.append(fact);
    Ok(out)
}

/// The fact to forget; refused where it is blank.
pub fn forget(matching: &str) -> (r: Result<String, MemoryError<String>>)
    ensures
        outcome(r) == if scan::trimmed(matching@).len() == 0 {
            Err(MemoryError::Empty { tool: FORGET_TOOL@, key: "matching"@ })
        } else {
            Ok(scan::trimmed(matching@))
        },
{
    let wanted = trim(matching);
    if wanted.as_str().is_empty() {
        return Err(
            MemoryError::Empty { tool: FORGET_TOOL.to_owned(), key: "matching".to_owned() },
        );
    }
    Ok(wanted)
}

/// What the model is told after a fact was forgotten; not exactly one match is an error.
pub fn told_forgotten(matching: &str, found: bool) -> (r: Result<String, MemoryError<String>>)
    ensures
        outcome(r) == if found {
            Ok("forgot the fact matching \""@ + matching@ + "\""@)
        } else {
            Err(MemoryError::NoMatch { matching: matching@ })
        },
{
    if !found {
        return Err(MemoryError::NoMatch { matching: matching.to_owned() });
    }
    Ok(cat3("forgot the fact matching \"", matching, "\""))
}

/// What the model is told: what came of it, or the error marked as one.
pub fn report_memory(result: Result<String, MemoryError<String>>) -> (r: String)
    ensures
        r@ == match outcome(result) {
            Ok(output) => output,
            Err(error) => "Error: "@ + error.words(),
        },
{
    match result {
        Ok(output) => output,
        Err(error) => {
            let words = error.message();
            cat("Error: ", words.as_str())
        },
    }
}

/// What is remembered is the fact as it was told, but for white space around it, whenever it says
/// anything and there is room.
pub proof fn law_facts_are_remembered_as_told(fact: Seq<char>, existing: u64)
    ensures
        remembered(fact, existing) matches Ok(kept) ==> text::stands_in(fact, kept),
        fact.len() > 0 && !text::is_white(fact[0]) && !text::is_white(fact.last()) && existing
            + bytes::size(fact) <= MAX_MEMORY_BYTES ==> remembered(fact, existing) == Ok::<
            Seq<char>,
            MemoryError<Seq<char>>,
        >(fact),
        (forall|i: int| 0 <= i < fact.len() ==> text::is_white(#[trigger] fact[i])) ==> remembered(
            fact,
            existing,
        ) is Err,
{
    scan::law_trimming_takes_only_white_space(fact);
    scan::lemma_trimmed_stands(fact);
    if fact.len() > 0 && !text::is_white(fact[0]) && !text::is_white(fact.last()) {
        scan::lemma_trimmed_bare(fact);
    }
}

/// Why a fact was not kept, changed or forgotten names what is missing, how full the memory is, or what
/// was looked for.
#[verifier::rlimit(50)]
pub proof fn law_memory_errors_say_why(
    tool: Seq<char>,
    key: Seq<char>,
    cause: Seq<char>,
    matching: Seq<char>,
    existing: u64,
)
    ensures
        text::stands_in((MemoryError::NotJson { cause }).words(), cause),
        text::stands_in((MemoryError::Empty { tool, key }).words(), tool),
        text::stands_in((MemoryError::Empty { tool, key }).words(), key),
        text::stands_in(
            (MemoryError::<Seq<char>>::Full { existing }).words(),
            number::decimal(existing as nat),
        ),
        text::stands_in((MemoryError::NoMatch { matching }).words(), matching),
        (MemoryError::Failed { cause }).words() == cause,
{
    broadcast use text::group_stands;

}

} // verus!
