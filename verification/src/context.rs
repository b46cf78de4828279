//! What a prompt carries besides its own words: files, directories, diffs, the clipboard, images
//! and the instructions of the project.
//!
//! Reading files, running git and asking the clipboard is left to the caller. Which source a
//! reference means, how much may be attached and how it is written down is decided here.
use crate::number;
use crate::number::number as number_text;
use crate::order;
use crate::order::sort;
use crate::path;
use crate::path::{extension_of, resolve_within_root, PathError};
use crate::provider::{ImageAttachment, ImageModel};
use crate::scan;
use crate::scan::{is_blank, strip_prefix, to_lower, trim_ends, Class};
use crate::split;
use crate::split::{join, split_words};
use crate::text;
use crate::text::{cat, cat3, holds, same};
use vstd::prelude::*;
use vstd::string::*;

verus! {

broadcast use crate::text::group_views;

/// The most bytes of one text file.
pub const MAX_FILE_BYTES: u64 = 65536;

/// The most bytes of text that one prompt may carry.
pub const MAX_CONTEXT_BYTES: usize = 131072;

/// The most bytes of one image.
pub const MAX_IMAGE_BYTES: u64 = 5242880;

/// The most files that a directory may bring along.
pub const MAX_DIRECTORY_FILES: u64 = 50;

/// Why a number is no measure of an image.
pub const OUT_OF_RANGE: &'static str = "out of range integral type conversion attempted";

/// Why an image has too many pixels to be encoded.
pub const TOO_MANY_PIXELS: &'static str = "Limits are exceeded.";

/// How many bytes a text takes.
pub open spec fn bytes(s: Seq<char>) -> usize {
    vstd::utf8::encode_utf8(s).len() as usize
}

// ---------------------------------------------------------------------------------------------
// Errors
// ---------------------------------------------------------------------------------------------

/// Why something could not be attached. `T` is text: `String` in a value, `Seq<char>` in its model.
#[derive(Debug)]
pub enum ContextError<T> {
    /// The reference does not lead to a place inside the project.
    Path(PathError<T>),
    NotAFile { reference: T },
    NotADirectory { reference: T },
    /// A text file is over the limit.
    FileTooLarge { path: T },
    /// What the system says of a file could not be had.
    NotInspected { path: T, cause: T },
    /// A file is no text.
    NotText { path: T, cause: T },
    /// The bytes of a file could not be had.
    NotRead { path: T, cause: T },
    /// An image is over the limit.
    ImageTooLarge { reference: T },
    /// All that is attached is over the limit.
    TooMuch,
    /// A directory holds nothing to attach.
    NothingToAttach { reference: T },
    ImageTooWide,
    ImageTooTall,
    /// The pixels of the clipboard could not be encoded.
    NotEncoded { cause: T },
    /// The image of the clipboard is over the limit.
    ClipboardTooLarge,
    /// What the caller could not read.
    Unreadable { cause: T },
}

impl View for ContextError<String> {
    type V = ContextError<Seq<char>>;

    open spec fn view(&self) -> ContextError<Seq<char>> {
        match self {
            ContextError::Path(e) => ContextError::Path(e@),
            ContextError::NotAFile { reference } => ContextError::NotAFile {
                reference: reference@,
            },
            ContextError::NotADirectory { reference } => ContextError::NotADirectory {
                reference: reference@,
            },
            ContextError::FileTooLarge { path } => ContextError::FileTooLarge { path: path@ },
            ContextError::NotInspected { path, cause } => ContextError::NotInspected {
                path: path@,
                cause: cause@,
            },
            ContextError::NotText { path, cause } => ContextError::NotText {
                path: path@,
                cause: cause@,
            },
            ContextError::NotRead { path, cause } => ContextError::NotRead {
                path: path@,
                cause: cause@,
            },
            ContextError::ImageTooLarge { reference } => ContextError::ImageTooLarge {
                reference: reference@,
            },
            ContextError::TooMuch => ContextError::TooMuch,
            ContextError::NothingToAttach { reference } => ContextError::NothingToAttach {
                reference: reference@,
            },
            ContextError::ImageTooWide => ContextError::ImageTooWide,
            ContextError::ImageTooTall => ContextError::ImageTooTall,
            ContextError::NotEncoded { cause } => ContextError::NotEncoded { cause: cause@ },
            ContextError::ClipboardTooLarge => ContextError::ClipboardTooLarge,
            ContextError::Unreadable { cause } => ContextError::Unreadable { cause: cause@ },
        }
    }
}

impl ContextError<Seq<char>> {
    /// What the user reads.
    pub open spec fn words(self) -> Seq<char> {
        match self {
            ContextError::Path(e) => e.words(),
            ContextError::NotAFile { reference } => "path is not a file: "@ + reference,
            ContextError::NotADirectory { reference } => "path is not a directory: "@ + reference,
            ContextError::FileTooLarge { path } => path + " exceeds the 64 KiB file limit"@,
            ContextError::NotInspected { path, cause } => "failed to inspect "@ + path + ": "@
                + cause,
            ContextError::NotText { path, cause } => path
                + " is not a readable UTF-8 text file: "@ + cause,
            ContextError::NotRead { path, cause } => "failed to read "@ + path + ": "@ + cause,
            ContextError::ImageTooLarge { reference } => reference
                + " exceeds the 5 MiB image limit"@,
            ContextError::TooMuch => "attached context exceeds 128 KiB"@,
            ContextError::NothingToAttach { reference } => "no attachable text files found in "@
                + reference,
            ContextError::ImageTooWide => "clipboard image is too wide: "@ + OUT_OF_RANGE@,
            ContextError::ImageTooTall => "clipboard image is too tall: "@ + OUT_OF_RANGE@,
            ContextError::NotEncoded { cause } => "failed to encode the clipboard image: "@ + cause,
            ContextError::ClipboardTooLarge =>
                "the clipboard image exceeds the 5 MiB image limit"@,
            ContextError::Unreadable { cause } => cause,
        }
    }
}

impl ContextError<String> {
    /// What the user reads.
    pub fn message(&self) -> (r: String)
        ensures
            r@ == self@.words(),
    {
        match self {
            ContextError::Path(e) => e.message(),
            ContextError::NotAFile { reference } => cat("path is not a file: ", reference.as_str()),
            ContextError::NotADirectory { reference } => cat(
                "path is not a directory: ",
                reference.as_str(),
            ),
            ContextError::FileTooLarge { path } => cat(
                path.as_str(),
                " exceeds the 64 KiB file limit",
            ),
            ContextError::NotInspected { path, cause } => {
                let mut out = cat3("failed to inspect ", path.as_str(), ": ");
                out.append(cause.as_str());
                out
            },
            ContextError::NotText { path, cause } => cat3(
                path.as_str(),
                " is not a readable UTF-8 text file: ",
                cause.as_str(),
            ),
            ContextError::NotRead { path, cause } => {
                let mut out = cat3("failed to read ", path.as_str(), ": ");
                out.append(cause.as_str());
                out
            },
            ContextError::ImageTooLarge { reference } => cat(
                reference.as_str(),
                " exceeds the 5 MiB image limit",
            ),
            ContextError::TooMuch => "attached context exceeds 128 KiB".to_owned(),
            ContextError::NothingToAttach { reference } => cat(
                "no attachable text files found in ",
                reference.as_str(),
            ),
            ContextError::ImageTooWide => cat("clipboard image is too wide: ", OUT_OF_RANGE),
            ContextError::ImageTooTall => cat("clipboard image is too tall: ", OUT_OF_RANGE),
            ContextError::NotEncoded { cause } => cat(
                "failed to encode the clipboard image: ",
                cause.as_str(),
            ),
            ContextError::ClipboardTooLarge =>
                "the clipboard image exceeds the 5 MiB image limit".to_owned(),
            ContextError::Unreadable { cause } => cause.clone(),
        }
    }
}

/// What went wrong, in a contract.
pub type Trouble = ContextError<Seq<char>>;

// ---------------------------------------------------------------------------------------------
// References
// ---------------------------------------------------------------------------------------------

/// The punctuation that may stand around a reference.
pub open spec fn punctuation() -> Seq<char> {
    seq![',', ';', ':', ')', ']', '}']
}

/// The reference that a word is: what stands behind `@`, without punctuation around it.
pub open spec fn reference_in(word: Seq<char>) -> Option<Seq<char>> {
    if word.len() > 0 && word[0] == '@' {
        let inner = scan::trim_both(word.skip(1), scan::one_of(punctuation()));
        if inner.len() > 0 {
            Some(inner)
        } else {
            None
        }
    } else {
        None
    }
}

/// The references among some words, each once, in the order in which they first come.
pub open spec fn references_in(words: Seq<Seq<char>>) -> Seq<Seq<char>>
    decreases words.len(),
{
    if words.len() == 0 {
        seq![]
    } else {
        let before = references_in(words.drop_last());
        match reference_in(words.last()) {
            Some(reference) => if before.contains(reference) {
                before
            } else {
                before.push(reference)
            },
            None => before,
        }
    }
}

/// The references of a prompt.
pub open spec fn references(input: Seq<char>) -> Seq<Seq<char>> {
    references_in(split::words(input))
}

/// The references of a prompt, each once, in the order in which they first come.
pub fn file_references(input: &str) -> (r: Vec<String>)
    ensures
        text::views(r@) == references(input@),
{
    let words = split_words(input);
    let ghost all = split::words(input@);
    let marks: [char; 6] = [',', ';', ':', ')', ']', '}'];
    assert(marks@ =~= punctuation());
    let mut out: Vec<String> = Vec::new();
    let mut i: usize = 0;
    assert(text::views(out@) =~= seq![]);
    while i < words.len()
        invariant
            i <= words.len(),
            text::views(words@) == all,
            marks@ == punctuation(),
            text::views(out@) == references_in(all.take(i as int)),
        decreases words.len() - i,
    {
        let ghost before = text::views(out@);
        let ghost word = all[i as int];
        proof {
            assert(all.take(i + 1).drop_last() =~= all.take(i as int));
            assert(all.take(i + 1).last() == word);
            reveal_strlit("@");
            assert("@"@ =~= seq!['@']);
            assert(scan::has_prefix(word, "@"@) <==> word.len() > 0 && word[0] == '@') by {
                if word.len() > 0 {
                    assert(word.subrange(0, 1) =~= seq![word[0]]);
                    assert(seq![word[0]][0] == word[0]);
                    assert(seq!['@'][0] == '@');
                }
            }
        }
        if let Some(rest) = strip_prefix(words[i].as_str(), "@") {
            let reference = trim_ends(rest.as_str(), &Class::Of(&marks));
            if !reference.as_str().is_empty() && !holds(&out, reference.as_str()) {
                out.push(reference);
                assert(text::views(out@) =~= before.push(reference@));
            }
        }
        i += 1;
    }
    assert(all.take(i as int) =~= all);
    out
}

proof fn lemma_references_distinct(words: Seq<Seq<char>>)
    ensures
        references_in(words).no_duplicates(),
    decreases words.len(),
{
    if words.len() > 0 {
        lemma_references_distinct(words.drop_last());
    }
}

/// No reference is attached twice, and none is empty.
pub proof fn law_references_are_distinct(input: Seq<char>)
    ensures
        references(input).no_duplicates(),
        forall|i: int| 0 <= i < references(input).len() ==> (#[trigger] references(input)[i]).len() > 0,
{
    lemma_references_distinct(split::words(input));
    lemma_references_filled(split::words(input));
}

proof fn lemma_references_filled(words: Seq<Seq<char>>)
    ensures
        forall|i: int|
            0 <= i < references_in(words).len() ==> (#[trigger] references_in(words)[i]).len() > 0,
    decreases words.len(),
{
    if words.len() > 0 {
        lemma_references_filled(words.drop_last());
        let before = references_in(words.drop_last());
        assert forall|i: int| 0 <= i < references_in(words).len() implies (
        #[trigger] references_in(words)[i]).len() > 0 by {
            if i < before.len() {
                assert(references_in(words)[i] == before[i]);
            }
        }
    }
}

/// What a reference asks for.
#[derive(Clone, Copy, Debug, PartialEq, Eq, Structural)]
pub enum Source {
    Diff,
    Staged,
    Clipboard,
    Image(ImageKind),
    Path,
}

/// A kind of image that can be attached.
#[derive(Clone, Copy, Debug, PartialEq, Eq, Structural)]
pub enum ImageKind {
    Png,
    Jpeg,
    Gif,
    Webp,
}

impl ImageKind {
    /// The media type.
    pub open spec fn name_spec(self) -> Seq<char> {
        match self {
            ImageKind::Png => "image/png"@,
            ImageKind::Jpeg => "image/jpeg"@,
            ImageKind::Gif => "image/gif"@,
            ImageKind::Webp => "image/webp"@,
        }
    }

    /// The media type.
    pub fn name(self) -> (r: &'static str)
        ensures
            r@ == self.name_spec(),
    {
        match self {
            ImageKind::Png => "image/png",
            ImageKind::Jpeg => "image/jpeg",
            ImageKind::Gif => "image/gif",
            ImageKind::Webp => "image/webp",
        }
    }
}

/// The kind of image that an extension tells.
pub open spec fn kind_of(extension: Seq<char>) -> Option<ImageKind> {
    let e = scan::lower(extension);
    if e == "png"@ {
        Some(ImageKind::Png)
    } else if e == "jpg"@ || e == "jpeg"@ {
        Some(ImageKind::Jpeg)
    } else if e == "gif"@ {
        Some(ImageKind::Gif)
    } else if e == "webp"@ {
        Some(ImageKind::Webp)
    } else {
        None
    }
}

/// The kind of image that a path names.
pub open spec fn image_kind(path: Seq<char>) -> Option<ImageKind> {
    match path::extension(path) {
        Some(extension) => kind_of(extension),
        None => None,
    }
}

/// The kind of image that a path names, told by its extension.
pub fn image_media_type(path: &str) -> (r: Option<ImageKind>)
    ensures
        r == image_kind(path@),
{
    match extension_of(path) {
        None => None,
        Some(extension) => {
            let e = to_lower(extension.as_str());
            if same(e.as_str(), "png") {
                Some(ImageKind::Png)
            } else if same(e.as_str(), "jpg") || same(e.as_str(), "jpeg") {
                Some(ImageKind::Jpeg)
            } else if same(e.as_str(), "gif") {
                Some(ImageKind::Gif)
            } else if same(e.as_str(), "webp") {
                Some(ImageKind::Webp)
            } else {
                None
            }
        },
    }
}

/// What a reference asks for: a named source where it is the name of one, then an image where its
/// extension is that of one, and a path in the project otherwise.
pub open spec fn source_spec(reference: Seq<char>) -> Source {
    if reference == "diff"@ {
        Source::Diff
    } else if reference == "staged"@ {
        Source::Staged
    } else if reference == "clipboard"@ {
        Source::Clipboard
    } else {
        match image_kind(reference) {
            Some(kind) => Source::Image(kind),
            None => Source::Path,
        }
    }
}

/// What a reference asks for.
pub fn source_of(reference: &str) -> (r: Source)
    ensures
        r == source_spec(reference@),
{
    if same(reference, "diff") {
        Source::Diff
    } else if same(reference, "staged") {
        Source::Staged
    } else if same(reference, "clipboard") {
        Source::Clipboard
    } else {
        match image_media_type(reference) {
            Some(kind) => Source::Image(kind),
            None => Source::Path,
        }
    }
}

// ---------------------------------------------------------------------------------------------
// Files
// ---------------------------------------------------------------------------------------------

/// What the caller found out about a file.
#[derive(Debug)]
pub struct FileFacts {
    /// The absolute path behind the reference, or why there is none.
    pub found: Result<String, String>,
    pub is_file: bool,
    /// The size in bytes, or why it could not be had.
    pub size: Result<u64, String>,
    /// The content, or why the file is no readable text. It counts only within the limit.
    pub content: Result<String, String>,
}

/// The content of a text file within the limit.
pub open spec fn text_in(
    path: Seq<char>,
    size: Result<u64, Seq<char>>,
    content: Result<Seq<char>, Seq<char>>,
) -> Result<Seq<char>, Trouble> {
    match size {
        Err(cause) => Err(ContextError::NotInspected { path, cause }),
        Ok(size) => if size > MAX_FILE_BYTES {
            Err(ContextError::FileTooLarge { path })
        } else {
            match content {
                Ok(content) => Ok(content),
                Err(cause) => Err(ContextError::NotText { path, cause }),
            }
        },
    }
}

/// The content of a text file within the limit.
pub fn read_text_file(
    path: &str,
    size: Result<u64, String>,
    content: Result<String, String>,
) -> (r: Result<String, ContextError<String>>)
    ensures
        text::res_view(r) == text_in(path@, text::res_view(size), text::res_view(content)),
{
    match size {
        Err(cause) => Err(ContextError::NotInspected { path: path.to_owned(), cause }),
        Ok(size) => {
            if size > MAX_FILE_BYTES {
                return Err(ContextError::FileTooLarge { path: path.to_owned() });
            }
            match content {
                Ok(content) => Ok(content),
                Err(cause) => Err(ContextError::NotText { path: path.to_owned(), cause }),
            }
        },
    }
}

/// The content of a file that a reference names.
pub open spec fn file_in(root: Seq<char>, reference: Seq<char>, facts: FileFacts) -> Result<
    Seq<char>,
    Trouble,
> {
    match path::resolved(root, reference, text::res_view(facts.found)) {
        Err(e) => Err(ContextError::Path(e)),
        Ok(path) => if facts.is_file {
            text_in(path, text::res_view(facts.size), text::res_view(facts.content))
        } else {
            Err(ContextError::NotAFile { reference })
        },
    }
}

/// Read a text file that a reference names, from what the caller found out about it.
pub fn read_project_file(root: &str, reference: &str, facts: FileFacts) -> (r: Result<
    String,
    ContextError<String>,
>)
    ensures
        text::res_view(r) == file_in(root@, reference@, facts),
{
    let path = match resolve_within_root(root, reference, facts.found) {
        Ok(path) => path,
        Err(e) => {
            return Err(ContextError::Path(e));
        },
    };
    if !facts.is_file {
        return Err(ContextError::NotAFile { reference: reference.to_owned() });
    }
    read_text_file(path.as_str(), facts.size, facts.content)
}

// ---------------------------------------------------------------------------------------------
// Listings
// ---------------------------------------------------------------------------------------------

/// An entry of a directory.
#[derive(Debug)]
pub struct Entry {
    pub is_dir: bool,
    pub name: String,
}

/// The names of the directories, or of the others, without `.git`, in the order of the entries.
pub open spec fn names_of(entries: Seq<Entry>, dirs: bool) -> Seq<Seq<char>>
    decreases entries.len(),
{
    if entries.len() == 0 {
        seq![]
    } else {
        let entry = entries.last();
        let before = names_of(entries.drop_last(), dirs);
        if entry.name@ != ".git"@ && entry.is_dir == dirs {
            before.push(entry.name@)
        } else {
            before
        }
    }
}

/// The lines of a listing: directories first, with a slash, and each kind in order.
pub open spec fn listing_lines(entries: Seq<Entry>) -> Seq<Seq<char>> {
    order::in_order(names_of(entries, true)).map_values(|name: Seq<char>| name + "/"@)
        + order::in_order(names_of(entries, false))
}

/// The listing of some entries.
pub open spec fn listing(entries: Seq<Entry>) -> Seq<char> {
    if listing_lines(entries).len() == 0 {
        "(empty directory)"@
    } else {
        split::joined(listing_lines(entries), "\n"@)
    }
}

fn pick_names(entries: &[Entry], dirs: bool) -> (r: Vec<String>)
    ensures
        text::views(r@) == names_of(entries@, dirs),
{
    let mut out: Vec<String> = Vec::new();
    let mut i: usize = 0;
    assert(text::views(out@) =~= seq![]);
    while i < entries.len()
        invariant
            i <= entries.len(),
            text::views(out@) == names_of(entries@.take(i as int), dirs),
        decreases entries.len() - i,
    {
        let ghost before = text::views(out@);
        assert(entries@.take(i + 1).drop_last() =~= entries@.take(i as int));
        assert(entries@.take(i + 1).last() == entries@[i as int]);
        if !same(entries[i].name.as_str(), ".git") && entries[i].is_dir == dirs {
            out.push(entries[i].name.clone());
            assert(text::views(out@) =~= before.push(entries@[i as int].name@));
        }
        i += 1;
    }
    assert(entries@.take(i as int) =~= entries@);
    out
}

/// The listing of some entries.
pub fn list_entries(entries: &[Entry]) -> (r: String)
    ensures
        r@ == listing(entries@),
{
    let dirs = sort(&pick_names(entries, true));
    let files = sort(&pick_names(entries, false));
    let ghost d = order::in_order(names_of(entries@, true));
    let ghost f = order::in_order(names_of(entries@, false));
    let ghost slashed = |name: Seq<char>| name + "/"@;
    let mut lines: Vec<String> = Vec::new();
    let mut i: usize = 0;
    while i < dirs.len()
        invariant
            i <= dirs.len(),
            text::views(dirs@) == d,
            slashed == (|name: Seq<char>| name + "/"@),
            text::views(lines@) =~= d.map_values(slashed).take(i as int),
        decreases dirs.len() - i,
    {
        lines.push(cat(dirs[i].as_str(), "/"));
        i += 1;
    }
    let mut k: usize = 0;
    while k < files.len()
        invariant
            k <= files.len(),
            text::views(files@) == f,
            text::views(lines@) =~= d.map_values(slashed) + f.take(k as int),
        decreases files.len() - k,
    {
        lines.push(files[k].clone());
        k += 1;
    }
    assert(text::views(lines@) =~= listing_lines(entries@));
    if lines.len() == 0 {
        return "(empty directory)".to_owned();
    }
    join(&lines, "\n")
}

/// The listing of a directory that a reference names.
pub open spec fn directory_in(
    root: Seq<char>,
    reference: Seq<char>,
    found: path::Found,
    is_dir: bool,
    entries: Seq<Entry>,
) -> Result<Seq<char>, Trouble> {
    match path::resolved(root, reference, found) {
        Err(e) => Err(ContextError::Path(e)),
        Ok(_) => if is_dir {
            Ok(listing(entries))
        } else {
            Err(ContextError::NotADirectory { reference })
        },
    }
}

/// List a directory that a reference names, from what the caller found in it.
pub fn list_project_directory(
    root: &str,
    reference: &str,
    found: Result<String, String>,
    is_dir: bool,
    entries: &[Entry],
) -> (r: Result<String, ContextError<String>>)
    ensures
        text::res_view(r) == directory_in(
            root@,
            reference@,
            text::res_view(found),
            is_dir,
            entries@,
        ),
{
    if let Err(e) = resolve_within_root(root, reference, found) {
        return Err(ContextError::Path(e));
    }
    if !is_dir {
        return Err(ContextError::NotADirectory { reference: reference.to_owned() });
    }
    Ok(list_entries(entries))
}

// ---------------------------------------------------------------------------------------------
// Images
// ---------------------------------------------------------------------------------------------

/// The digits of Base64.
pub const BASE64_DIGITS: &'static str =
    "ABCDEFGHIJKLMNOPQRSTUVWXYZabcdefghijklmnopqrstuvwxyz0123456789+/";

/// The four digits of a number of twenty-four bits.
pub open spec fn base64_digits(n: int) -> Seq<char> {
    let digits = BASE64_DIGITS@;
    seq![digits[n / 262144], digits[n / 4096 % 64], digits[n / 64 % 64], digits[n % 64]]
}

/// Some bytes in Base64: four digits for each three bytes, and for what is left over the digits that
/// it takes, filled up with equals signs.
pub open spec fn base64_of(bytes: Seq<u8>) -> Seq<char>
    decreases bytes.len(),
{
    if bytes.len() == 0 {
        seq![]
    } else if bytes.len() == 1 {
        base64_digits(bytes[0] * 65536).take(2) + seq!['=', '=']
    } else if bytes.len() == 2 {
        base64_digits(bytes[0] * 65536 + bytes[1] * 256).take(3) + seq!['=']
    } else {
        base64_digits(bytes[0] * 65536 + bytes[1] * 256 + bytes[2]) + base64_of(bytes.skip(3))
    }
}

/// The most bytes that are written in Base64: so many that the text is no longer than a text can be.
pub open spec fn most_encoded() -> int {
    isize::MAX / 4 * 3
}

/// What `png::Encoder` makes of 8-bit RGBA pixels, or why it makes nothing.
pub uninterp spec fn png_of(width: u32, height: u32, rgba: Seq<u8>) -> Result<Seq<u8>, Seq<char>>;

/// `base64::engine::general_purpose::STANDARD.encode`: the standard alphabet, with padding. The call
/// fails only where the text would be longer than a text can be.
#[verifier::external_body]
fn encode_base64(bytes: &[u8]) -> (r: String)
    requires
        bytes@.len() <= most_encoded(),
    ensures
        r@ == base64_of(bytes@),
{
    base64::Engine::encode(&base64::engine::general_purpose::STANDARD, bytes)
}

/// `png::Encoder` with `ColorType::Rgba` and `BitDepth::Eight`, header and image data. The bytes, or
/// the words of the error where there are none, depend on the size and the pixels alone; which they
/// are, is left to their name. The encoder counts the bytes of all rows, with one more for each, in
/// a `usize`.
#[verifier::external_body]
fn encode_pixels(width: u32, height: u32, rgba: &[u8]) -> (r: Result<Vec<u8>, String>)
    requires
        (4 * width + 1) * height <= usize::MAX,
        4 * width + 1 <= usize::MAX,
    ensures
        text::res_view(r) == png_of(width, height, rgba@),
{
    let mut bytes: Vec<u8> = Vec::new();
    let mut encoder = png::Encoder::new(&mut bytes, width, height);
    encoder.set_color(png::ColorType::Rgba);
    encoder.set_depth(png::BitDepth::Eight);
    let mut writer = encoder.write_header().map_err(|error| error.to_string())?;
    writer.write_image_data(rgba).map_err(|error| error.to_string())?;
    drop(writer);
    Ok(bytes)
}

/// An image file as an attachment.
pub open spec fn image_of(kind: ImageKind, data: Seq<u8>) -> ImageModel {
    ImageModel { media_type: kind.name_spec(), data: base64_of(data) }
}

/// What the caller found out about an image file.
#[derive(Debug)]
pub struct ImageFacts {
    /// The absolute path behind the reference, or why there is none.
    pub found: Result<String, String>,
    pub is_file: bool,
    /// The size in bytes, or why it could not be had.
    pub size: Result<u64, String>,
    /// The bytes, or why they could not be had. They count only where the size is within the limit.
    pub data: Result<Vec<u8>, String>,
}

/// The image that a reference names.
pub open spec fn image_in(
    root: Seq<char>,
    reference: Seq<char>,
    kind: ImageKind,
    facts: ImageFacts,
) -> Result<ImageModel, Trouble> {
    match path::resolved(root, reference, text::res_view(facts.found)) {
        Err(e) => Err(ContextError::Path(e)),
        Ok(path) => if !facts.is_file {
            Err(ContextError::NotAFile { reference })
        } else {
            match facts.size {
                Err(cause) => Err(ContextError::NotInspected { path, cause: cause@ }),
                Ok(size) => if size > MAX_IMAGE_BYTES {
                    Err(ContextError::ImageTooLarge { reference })
                } else {
                    match facts.data {
                        Err(cause) => Err(ContextError::NotRead { path, cause: cause@ }),
                        Ok(data) => Ok(image_of(kind, data@)),
                    }
                },
            }
        },
    }
}

/// Attach an image file, from what the caller found out about it. The size that was inspected decides
/// whether it is within the limit.
pub fn read_project_image(root: &str, reference: &str, kind: ImageKind, facts: ImageFacts) -> (r:
    Result<ImageAttachment, ContextError<String>>)
    requires
        facts.data matches Ok(data) ==> data@.len() <= most_encoded(),
    ensures
        text::res_view(r) == image_in(root@, reference@, kind, facts),
{
    let path = match resolve_within_root(root, reference, facts.found) {
        Ok(path) => path,
        Err(e) => {
            return Err(ContextError::Path(e));
        },
    };
    if !facts.is_file {
        return Err(ContextError::NotAFile { reference: reference.to_owned() });
    }
    let size: u64 = match facts.size {
        Ok(size) => size,
        Err(cause) => {
            return Err(ContextError::NotInspected { path, cause });
        },
    };
    if size > MAX_IMAGE_BYTES {
        return Err(ContextError::ImageTooLarge { reference: reference.to_owned() });
    }
    let data = match facts.data {
        Ok(data) => data,
        Err(cause) => {
            return Err(ContextError::NotRead { path, cause });
        },
    };
    Ok(ImageAttachment { media_type: kind.name().to_owned(), data: encode_base64(&data) })
}

/// The attachment of an encoded image of the clipboard.
pub open spec fn clipboard_image(png: Result<Seq<u8>, Seq<char>>) -> Result<ImageModel, Trouble> {
    match png {
        Err(cause) => Err(ContextError::NotEncoded { cause }),
        Ok(bytes) => if bytes.len() > MAX_IMAGE_BYTES {
            Err(ContextError::ClipboardTooLarge)
        } else {
            Ok(image_of(ImageKind::Png, bytes))
        },
    }
}

/// Attach an encoded image of the clipboard.
pub fn attach_png(png: Result<Vec<u8>, String>) -> (r: Result<ImageAttachment, ContextError<String>>)
    ensures
        text::res_view(r) == clipboard_image(text::res_view(png)),
{
    match png {
        Err(cause) => Err(ContextError::NotEncoded { cause }),
        Ok(bytes) => {
            if bytes.len() as u64 > MAX_IMAGE_BYTES {
                return Err(ContextError::ClipboardTooLarge);
            }
            Ok(
                ImageAttachment {
                    media_type: ImageKind::Png.name().to_owned(),
                    data: encode_base64(&bytes),
                },
            )
        },
    }
}

/// The attachment of raw pixels: four bytes for each of `width` times `height` pixels.
pub open spec fn pixels_attached(width: usize, height: usize, rgba: Seq<u8>) -> Result<
    ImageModel,
    Trouble,
> {
    if width > u32::MAX {
        Err(ContextError::ImageTooWide)
    } else if height > u32::MAX {
        Err(ContextError::ImageTooTall)
    } else if (4 * width + 1) * height > usize::MAX || 4 * width + 1 > usize::MAX {
        Err(ContextError::NotEncoded { cause: TOO_MANY_PIXELS@ })
    } else {
        clipboard_image(png_of(width as u32, height as u32, rgba))
    }
}

/// Encode raw RGBA pixels as a PNG attachment.
pub fn encode_png(width: usize, height: usize, rgba: &[u8]) -> (r: Result<
    ImageAttachment,
    ContextError<String>,
>)
    ensures
        text::res_view(r) == pixels_attached(width, height, rgba@),
{
    if width as u64 > u32::MAX as u64 {
        return Err(ContextError::ImageTooWide);
    }
    if height as u64 > u32::MAX as u64 {
        return Err(ContextError::ImageTooTall);
    }
    let row: u128 = 4 * (width as u128) + 1;
    assert(row * (height as u128) <= 0x3_ffff_fffd * 0xffff_ffff) by (nonlinear_arith)
        requires
            row <= 0x3_ffff_fffd,
            height <= 0xffff_ffff,
    ;
    let rows: u128 = row * (height as u128);
    if rows > usize::MAX as u128 || row > usize::MAX as u128 {
        return Err(ContextError::NotEncoded { cause: TOO_MANY_PIXELS.to_owned() });
    }
    attach_png(encode_pixels(width as u32, height as u32, rgba))
}

// ---------------------------------------------------------------------------------------------
// Directories
// ---------------------------------------------------------------------------------------------

/// Text as it is attached.
pub open spec fn block(label: Seq<char>, content: Seq<char>) -> Seq<char> {
    "\n\n<context source=\""@ + label + "\">\n"@ + content + "\n</context>"@
}

/// The note that stands for an image.
pub open spec fn image_note(label: Seq<char>) -> Seq<char> {
    "\n\n<context source=\""@ + label + "\">(image attached)</context>"@
}

fn push_block(out: &mut String, label: &str, content: &str)
    ensures
        final(out)@ == old(out)@ + block(label@, content@),
{
    let ghost before = out@;
    out.append("\n\n<context source=\"");
    out.append(label);
    out.append("\">\n");
    out.append(content);
    out.append("\n</context>");
    assert(out@ =~= before + block(label@, content@));
}

fn push_image_note(out: &mut String, label: &str)
    ensures
        final(out)@ == old(out)@ + image_note(label@),
{
    let ghost before = out@;
    out.append("\n\n<context source=\"");
    out.append(label);
    out.append("\">(image attached)</context>");
    assert(out@ =~= before + image_note(label@));
}

/// A file found in a directory.
#[derive(Debug)]
pub struct DirectoryFile {
    /// The path inside the project.
    pub label: String,
    /// The content, where the file is text within the limit.
    pub content: Option<String>,
}

/// What a directory has brought so far.
#[derive(Debug)]
pub struct Directory {
    pub blocks: String,
    pub used: usize,
    pub attached: u64,
    pub omitted: u64,
}

/// What a [`Directory`] stands for.
#[verifier::ext_equal]
pub struct DirectoryModel {
    pub blocks: Seq<char>,
    pub used: int,
    pub attached: int,
    pub omitted: int,
}

impl View for Directory {
    type V = DirectoryModel;

    open spec fn view(&self) -> DirectoryModel {
        DirectoryModel {
            blocks: self.blocks@,
            used: self.used as int,
            attached: self.attached as int,
            omitted: self.omitted as int,
        }
    }
}

/// A directory that has brought nothing yet.
pub open spec fn no_files() -> DirectoryModel {
    DirectoryModel { blocks: seq![], used: 0, attached: 0, omitted: 0 }
}

/// What a directory has brought after one more file: the file is attached while there is room for
/// it among the files and in the budget, and counted as left out otherwise.
pub open spec fn with_file(so_far: DirectoryModel, budget: int, file: DirectoryFile) -> DirectoryModel {
    let left_out = DirectoryModel { omitted: so_far.omitted + 1, ..so_far };
    if so_far.attached >= MAX_DIRECTORY_FILES {
        left_out
    } else {
        match file.content {
            None => left_out,
            Some(content) => if so_far.used + bytes(content@) > budget {
                left_out
            } else {
                DirectoryModel {
                    blocks: so_far.blocks + block(file.label@, content@),
                    used: so_far.used + bytes(content@),
                    attached: so_far.attached + 1,
                    omitted: so_far.omitted,
                }
            },
        }
    }
}

/// What some files bring, in order.
pub open spec fn with_files(budget: int, files: Seq<DirectoryFile>) -> DirectoryModel
    decreases files.len(),
{
    if files.len() == 0 {
        no_files()
    } else {
        with_file(with_files(budget, files.drop_last()), budget, files.last())
    }
}

/// The note on the files that were left out.
pub open spec fn omission(reference: Seq<char>, omitted: nat) -> Seq<char> {
    "\n\n<context source=\""@ + reference + "\">("@ + number::decimal(omitted)
        + " more files omitted: binary, too large, or over the context budget)</context>"@
}

/// What a directory brings once all its files have been seen.
pub open spec fn directory_done(reference: Seq<char>, all: DirectoryModel) -> Result<
    DirectoryModel,
    Trouble,
> {
    if all.attached == 0 && all.omitted == 0 {
        Err(ContextError::NothingToAttach { reference })
    } else if all.omitted > 0 {
        Ok(DirectoryModel { blocks: all.blocks + omission(reference, all.omitted as nat), ..all })
    } else {
        Ok(all)
    }
}

impl Directory {
    /// A directory that has brought nothing yet.
    pub fn new() -> (r: Directory)
        ensures
            r@ == no_files(),
    {
        let directory = Directory { blocks: String::new(), used: 0, attached: 0, omitted: 0 };
        assert(directory@.blocks =~= seq![]);
        directory
    }

    /// Whether no further file can be attached, so that none need be read.
    pub fn is_full(&self) -> (r: bool)
        ensures
            r == (self@.attached >= MAX_DIRECTORY_FILES),
    {
        self.attached >= MAX_DIRECTORY_FILES
    }

    /// See one more file.
    pub fn add(&mut self, budget: usize, file: DirectoryFile)
        requires
            old(self)@.used <= budget,
            old(self)@.omitted < u64::MAX,
        ensures
            final(self)@ == with_file(old(self)@, budget as int, file),
            final(self)@.used <= budget,
    {
        if self.attached >= MAX_DIRECTORY_FILES {
            self.omitted += 1;
            return;
        }
        match file.content {
            None => {
                self.omitted += 1;
            },
            Some(content) => {
                let size: usize = content.as_str().len();
                if size > budget - self.used {
                    self.omitted += 1;
                } else {
                    self.used += size;
                    self.attached += 1;
                    push_block(&mut self.blocks, file.label.as_str(), content.as_str());
                }
            },
        }
    }

    /// All files have been seen.
    pub fn finish(self, reference: &str) -> (r: Result<Directory, ContextError<String>>)
        ensures
            match r {
                Ok(done) => directory_done(reference@, self@) == Ok::<DirectoryModel, Trouble>(
                    done@,
                ),
                Err(e) => directory_done(reference@, self@) == Err::<DirectoryModel, Trouble>(e@),
            },
    {
        if self.attached == 0 && self.omitted == 0 {
            return Err(ContextError::NothingToAttach { reference: reference.to_owned() });
        }
        let mut done = self;
        if done.omitted > 0 {
            let ghost before = done.blocks@;
            done.blocks.append("\n\n<context source=\"");
            done.blocks.append(reference);
            done.blocks.append("\">(");
            let digits = number_text(done.omitted);
            done.blocks.append(digits.as_str());
            done.blocks.append(
                " more files omitted: binary, too large, or over the context budget)</context>",
            );
            assert(done.blocks@ =~= before + omission(reference@, done.omitted as nat));
        }
        Ok(done)
    }
}

/// Attach the files of a directory, in order, within a budget of bytes.
pub fn read_project_directory(reference: &str, budget: usize, files: Vec<DirectoryFile>) -> (r:
    Result<Directory, ContextError<String>>)
    ensures
        match r {
            Ok(done) => directory_done(reference@, with_files(budget as int, files@)) == Ok::<
                DirectoryModel,
                Trouble,
            >(done@),
            Err(e) => directory_done(reference@, with_files(budget as int, files@)) == Err::<
                DirectoryModel,
                Trouble,
            >(e@),
        },
{
    let ghost all = files@;
    assert(all.len() == files.len());
    let ghost mut seen: int = 0;
    let mut rest = files;
    let mut directory = Directory::new();
    assert(all.take(0) =~= seq![]);
    proof {
        lemma_directory_bounds(budget as int, all.take(0));
    }
    while rest.len() > 0
        invariant
            0 <= seen <= all.len(),
            rest@ == all.skip(seen),
            all.len() <= usize::MAX,
            directory@ == with_files(budget as int, all.take(seen)),
            directory@.used <= budget,
            directory@.omitted <= seen,
        decreases rest.len(),
    {
        let file = rest.remove(0);
        proof {
            assert(all.take(seen + 1).drop_last() =~= all.take(seen));
            assert(all.take(seen + 1).last() == file);
        }
        directory.add(budget, file);
        proof {
            assert(all.skip(seen).remove(0) =~= all.skip(seen + 1));
            seen = seen + 1;
            lemma_directory_bounds(budget as int, all.take(seen));
        }
    }
    assert(all.take(seen) =~= all);
    directory.finish(reference)
}

proof fn lemma_directory_bounds(budget: int, files: Seq<DirectoryFile>)
    requires
        budget >= 0,
    ensures
        0 <= with_files(budget, files).used <= budget,
        0 <= with_files(budget, files).attached <= MAX_DIRECTORY_FILES,
        with_files(budget, files).attached + with_files(budget, files).omitted == files.len(),
        0 <= with_files(budget, files).omitted,
    decreases files.len(),
{
    if files.len() > 0 {
        lemma_directory_bounds(budget, files.drop_last());
    }
}

/// A directory stays within its budget and its number of files, and every file is either attached
/// or counted as left out.
pub proof fn law_directory_stays_in_budget(budget: nat, files: Seq<DirectoryFile>)
    ensures
        with_files(budget as int, files).used <= budget,
        with_files(budget as int, files).attached <= MAX_DIRECTORY_FILES,
        with_files(budget as int, files).attached + with_files(budget as int, files).omitted
            == files.len(),
{
    lemma_directory_bounds(budget as int, files);
}

// ---------------------------------------------------------------------------------------------
// Expanding a prompt
// ---------------------------------------------------------------------------------------------

/// A prompt after its references are expanded: text inlined, images carried separately.
#[derive(Debug)]
pub struct Expanded {
    pub text: String,
    pub images: Vec<ImageAttachment>,
    /// How many files were attached.
    pub attached_files: u64,
    /// How many files of directories were left out.
    pub omitted_files: u64,
}

/// What [`Expanded`] stands for.
#[verifier::ext_equal]
pub struct ExpandedModel {
    pub text: Seq<char>,
    pub images: Seq<ImageModel>,
    pub attached_files: int,
    pub omitted_files: int,
}

impl View for Expanded {
    type V = ExpandedModel;

    open spec fn view(&self) -> ExpandedModel {
        ExpandedModel {
            text: self.text@,
            images: text::views(self.images@),
            attached_files: self.attached_files as int,
            omitted_files: self.omitted_files as int,
        }
    }
}

/// What a reference led to.
#[derive(Debug)]
pub enum Fetched {
    Text(String),
    Image(ImageAttachment),
    Directory(Directory),
}

/// What references have brought so far.
#[derive(Debug)]
pub struct Expansion {
    pub total: usize,
    pub context: String,
    pub images: Vec<ImageAttachment>,
    pub attached: u64,
    pub omitted: u64,
}

/// What an [`Expansion`] stands for.
#[verifier::ext_equal]
pub struct ExpansionModel {
    pub total: int,
    pub context: Seq<char>,
    pub images: Seq<ImageModel>,
    pub attached: int,
    pub omitted: int,
}

impl View for Expansion {
    type V = ExpansionModel;

    open spec fn view(&self) -> ExpansionModel {
        ExpansionModel {
            total: self.total as int,
            context: self.context@,
            images: text::views(self.images@),
            attached: self.attached as int,
            omitted: self.omitted as int,
        }
    }
}

/// The label under which what a reference led to is attached.
pub open spec fn label_of(reference: Seq<char>) -> Seq<char> {
    match source_spec(reference) {
        Source::Diff => "git diff"@,
        Source::Staged => "git diff --staged"@,
        _ => reference,
    }
}

/// No references have been followed yet.
pub open spec fn nothing_attached() -> ExpansionModel {
    ExpansionModel { total: 0, context: seq![], images: seq![], attached: 0, omitted: 0 }
}

/// What references have brought after one more. Text beyond the limit is refused.
pub open spec fn with_reference(
    so_far: ExpansionModel,
    reference: Seq<char>,
    fetched: Fetched,
) -> Result<ExpansionModel, Trouble> {
    match fetched {
        Fetched::Text(content) => if so_far.total + bytes(content@) > MAX_CONTEXT_BYTES {
            Err(ContextError::TooMuch)
        } else {
            Ok(
                ExpansionModel {
                    total: so_far.total + bytes(content@),
                    context: so_far.context + block(label_of(reference), content@),
                    attached: so_far.attached + if source_spec(reference) == Source::Path {
                        1int
                    } else {
                        0
                    },
                    ..so_far
                },
            )
        },
        Fetched::Image(image) => Ok(
            ExpansionModel {
                context: so_far.context + image_note(reference),
                images: so_far.images.push(image@),
                ..so_far
            },
        ),
        Fetched::Directory(directory) => if so_far.total + directory.used > MAX_CONTEXT_BYTES {
            Err(ContextError::TooMuch)
        } else {
            Ok(
                ExpansionModel {
                    total: so_far.total + directory.used,
                    context: so_far.context + directory.blocks@,
                    attached: so_far.attached + directory.attached,
                    omitted: so_far.omitted + directory.omitted,
                    ..so_far
                },
            )
        },
    }
}

impl Expansion {
    /// The text attached so far is within the limit.
    pub open spec fn wf(&self) -> bool {
        self.total <= MAX_CONTEXT_BYTES
    }

    /// No references have been followed yet.
    pub fn new() -> (r: Expansion)
        ensures
            r@ == nothing_attached(),
            r.wf(),
    {
        let expansion = Expansion {
            total: 0,
            context: String::new(),
            images: Vec::new(),
            attached: 0,
            omitted: 0,
        };
        assert(expansion@.context =~= seq![]);
        assert(expansion@.images =~= seq![]);
        expansion
    }

    /// How many bytes of text may still be attached.
    pub fn budget(&self) -> (r: usize)
        requires
            self.wf(),
        ensures
            r == MAX_CONTEXT_BYTES - self@.total,
    {
        MAX_CONTEXT_BYTES - self.total
    }

    /// Attach what a reference led to.
    pub fn add(&mut self, reference: &str, fetched: Fetched) -> (r: Result<
        (),
        ContextError<String>,
    >)
        requires
            old(self).wf(),
            fetched is Text ==> old(self).attached < u64::MAX,
            fetched matches Fetched::Directory(d) ==> old(self).attached + d.attached <= u64::MAX
                && old(self).omitted + d.omitted <= u64::MAX,
        ensures
            final(self).wf(),
            match r {
                Ok(_) => with_reference(old(self)@, reference@, fetched) == Ok::<
                    ExpansionModel,
                    Trouble,
                >(final(self)@),
                Err(e) => with_reference(old(self)@, reference@, fetched) == Err::<
                    ExpansionModel,
                    Trouble,
                >(e@) && final(self)@ == old(self)@,
            },
    {
        match fetched {
            Fetched::Text(content) => {
                let size: usize = content.as_str().len();
                if size > MAX_CONTEXT_BYTES - self.total {
                    return Err(ContextError::TooMuch);
                }
                self.total += size;
                let label: &str = match source_of(reference) {
                    Source::Diff => "git diff",
                    Source::Staged => "git diff --staged",
                    Source::Path => {
                        self.attached += 1;
                        reference
                    },
                    _ => reference,
                };
                push_block(&mut self.context, label, content.as_str());
                Ok(())
            },
            Fetched::Image(image) => {
                let ghost before = text::views(self.images@);
                push_image_note(&mut self.context, reference);
                self.images.push(image);
                assert(text::views(self.images@) =~= before.push(image@));
                Ok(())
            },
            Fetched::Directory(directory) => {
                if directory.used > MAX_CONTEXT_BYTES - self.total {
                    return Err(ContextError::TooMuch);
                }
                self.total += directory.used;
                self.attached += directory.attached;
                self.omitted += directory.omitted;
                self.context.append(directory.blocks.as_str());
                Ok(())
            },
        }
    }

    /// The expanded prompt.
    pub fn finish(self, input: &str) -> (r: Expanded)
        ensures
            r@ == (ExpandedModel {
                text: input@ + "\n\nAttached project context:"@ + self@.context,
                images: self@.images,
                attached_files: self@.attached,
                omitted_files: self@.omitted,
            }),
    {
        Expanded {
            text: cat3(input, "\n\nAttached project context:", self.context.as_str()),
            images: self.images,
            attached_files: self.attached,
            omitted_files: self.omitted,
        }
    }
}

/// What a caller hands over for each reference: what it led to, or why it led nowhere.
pub type Outcome = Result<Fetched, ContextError<String>>;

/// How many files some outcomes attach at most.
pub open spec fn most_attached(outcomes: Seq<Outcome>) -> int
    decreases outcomes.len(),
{
    if outcomes.len() == 0 {
        0
    } else {
        most_attached(outcomes.drop_last()) + match outcomes.last() {
            Ok(Fetched::Text(_)) => 1int,
            Ok(Fetched::Directory(d)) => d.attached as int,
            _ => 0,
        }
    }
}

/// How many files some outcomes leave out.
pub open spec fn most_omitted(outcomes: Seq<Outcome>) -> int
    decreases outcomes.len(),
{
    if outcomes.len() == 0 {
        0
    } else {
        most_omitted(outcomes.drop_last()) + match outcomes.last() {
            Ok(Fetched::Directory(d)) => d.omitted as int,
            _ => 0,
        }
    }
}

proof fn lemma_counts_grow(outcomes: Seq<Outcome>, n: int)
    requires
        0 <= n <= outcomes.len(),
    ensures
        most_attached(outcomes.take(n)) <= most_attached(outcomes),
        most_omitted(outcomes.take(n)) <= most_omitted(outcomes),
    decreases outcomes.len(),
{
    if n == outcomes.len() {
        assert(outcomes.take(n) =~= outcomes);
    } else {
        lemma_counts_grow(outcomes.drop_last(), n);
        assert(outcomes.drop_last().take(n) =~= outcomes.take(n));
    }
}

/// What references bring, in order; the first that leads nowhere or brings too much ends it.
pub open spec fn with_references(references: Seq<Seq<char>>, outcomes: Seq<Outcome>) -> Result<
    ExpansionModel,
    Trouble,
>
    decreases outcomes.len(),
{
    if outcomes.len() == 0 {
        Ok(nothing_attached())
    } else {
        match with_references(references, outcomes.drop_last()) {
            Err(e) => Err(e),
            Ok(so_far) => match outcomes.last() {
                Err(e) => Err(e@),
                Ok(fetched) => with_reference(so_far, references[outcomes.len() - 1], fetched),
            },
        }
    }
}

/// How many bytes of text an attachment takes.
pub open spec fn text_bytes(fetched: Fetched) -> int {
    match fetched {
        Fetched::Text(content) => bytes(content@) as int,
        Fetched::Image(_) => 0,
        Fetched::Directory(directory) => directory.used as int,
    }
}

/// How many bytes of text may still be attached after some outcomes; nothing where one of them ends
/// the expansion, so that no further reference need be followed.
pub open spec fn budget_after(outcomes: Seq<Outcome>) -> Option<int>
    decreases outcomes.len(),
{
    if outcomes.len() == 0 {
        Some(MAX_CONTEXT_BYTES as int)
    } else {
        match budget_after(outcomes.drop_last()) {
            None => None,
            Some(left) => match outcomes.last() {
                Err(_) => None,
                Ok(fetched) => if text_bytes(fetched) > left {
                    None
                } else {
                    Some(left - text_bytes(fetched))
                },
            },
        }
    }
}

/// How many bytes of text may still be attached after some outcomes, or nothing where one of them
/// ends the expansion.
pub fn budget_left(outcomes: &[Outcome]) -> (r: Option<usize>)
    ensures
        match r {
            Some(left) => budget_after(outcomes@) == Some(left as int),
            None => budget_after(outcomes@) is None,
        },
{
    let ghost all = outcomes@;
    let mut left: usize = MAX_CONTEXT_BYTES;
    let mut i: usize = 0;
    assert(all.take(0) =~= seq![]);
    while i < outcomes.len()
        invariant
            i <= outcomes.len(),
            all == outcomes@,
            budget_after(all.take(i as int)) == Some(left as int),
        decreases outcomes.len() - i,
    {
        proof {
            assert(all.take(i + 1).drop_last() =~= all.take(i as int));
            assert(all.take(i + 1).last() == all[i as int]);
        }
        let size: usize = match &outcomes[i] {
            Ok(Fetched::Text(content)) => content.as_str().len(),
            Ok(Fetched::Image(_)) => 0,
            Ok(Fetched::Directory(directory)) => directory.used,
            Err(_) => {
                proof {
                    lemma_budget_ends(all, i + 1);
                }
                return None;
            },
        };
        if size > left {
            proof {
                lemma_budget_ends(all, i + 1);
            }
            return None;
        }
        left -= size;
        i += 1;
    }
    assert(all.take(i as int) =~= all);
    Some(left)
}

proof fn lemma_budget_ends(outcomes: Seq<Outcome>, n: int)
    requires
        0 <= n <= outcomes.len(),
        budget_after(outcomes.take(n)) is None,
    ensures
        budget_after(outcomes) is None,
    decreases outcomes.len(),
{
    if n == outcomes.len() {
        assert(outcomes.take(n) =~= outcomes);
    } else {
        assert(outcomes.drop_last().take(n) =~= outcomes.take(n));
        lemma_budget_ends(outcomes.drop_last(), n);
    }
}

/// The budget that is left is the room that the limit leaves beside what is attached, and there is
/// none exactly where the expansion has failed.
pub proof fn law_budget_is_the_room_left(references: Seq<Seq<char>>, outcomes: Seq<Outcome>)
    ensures
        match with_references(references, outcomes) {
            Ok(all) => budget_after(outcomes) == Some(MAX_CONTEXT_BYTES - all.total),
            Err(_) => budget_after(outcomes) is None,
        },
    decreases outcomes.len(),
{
    if outcomes.len() > 0 {
        law_budget_is_the_room_left(references, outcomes.drop_last());
    }
}

/// Whether the files that some outcomes attach and leave out can be counted.
pub fn counts_fit(outcomes: &[Outcome]) -> (r: bool)
    ensures
        r == (most_attached(outcomes@) <= u64::MAX && most_omitted(outcomes@) <= u64::MAX),
{
    let ghost all = outcomes@;
    let mut attached: u64 = 0;
    let mut omitted: u64 = 0;
    let mut i: usize = 0;
    assert(all.take(0) =~= seq![]);
    while i < outcomes.len()
        invariant
            i <= outcomes.len(),
            all == outcomes@,
            attached == most_attached(all.take(i as int)),
            omitted == most_omitted(all.take(i as int)),
        decreases outcomes.len() - i,
    {
        proof {
            assert(all.take(i + 1).drop_last() =~= all.take(i as int));
            assert(all.take(i + 1).last() == all[i as int]);
            lemma_counts_grow(all, i + 1);
        }
        let (more, fewer): (u64, u64) = match &outcomes[i] {
            Ok(Fetched::Text(_)) => (1, 0),
            Ok(Fetched::Directory(directory)) => (directory.attached, directory.omitted),
            _ => (0, 0),
        };
        if more > u64::MAX - attached || fewer > u64::MAX - omitted {
            return false;
        }
        attached += more;
        omitted += fewer;
        i += 1;
    }
    assert(all.take(i as int) =~= all);
    true
}

proof fn lemma_references_end(
    references: Seq<Seq<char>>,
    outcomes: Seq<Outcome>,
    n: int,
)
    requires
        0 <= n <= outcomes.len(),
        with_references(references, outcomes.take(n)) is Err,
    ensures
        with_references(references, outcomes) == with_references(references, outcomes.take(n)),
    decreases outcomes.len(),
{
    if n == outcomes.len() {
        assert(outcomes.take(n) =~= outcomes);
    } else {
        assert(outcomes.drop_last().take(n) =~= outcomes.take(n));
        lemma_references_end(references, outcomes.drop_last(), n);
    }
}

/// The prompt with its references expanded. A prompt without references stays as it is.
pub open spec fn expanded(input: Seq<char>, outcomes: Seq<Outcome>) -> Result<
    ExpandedModel,
    Trouble,
> {
    if references(input).len() == 0 {
        Ok(ExpandedModel { text: input, images: seq![], attached_files: 0, omitted_files: 0 })
    } else {
        match with_references(references(input), outcomes) {
            Err(e) => Err(e),
            Ok(all) => Ok(
                ExpandedModel {
                    text: input + "\n\nAttached project context:"@ + all.context,
                    images: all.images,
                    attached_files: all.attached,
                    omitted_files: all.omitted,
                },
            ),
        }
    }
}

proof fn lemma_context_bounded(references: Seq<Seq<char>>, outcomes: Seq<Outcome>)
    ensures
        with_references(references, outcomes) matches Ok(all) ==> 0 <= all.total
            <= MAX_CONTEXT_BYTES,
    decreases outcomes.len(),
{
    if outcomes.len() > 0 {
        lemma_context_bounded(references, outcomes.drop_last());
    }
}

/// However many references a prompt has, no more text is attached than the limit allows.
pub proof fn law_context_stays_in_budget(input: Seq<char>, outcomes: Seq<Outcome>)
    ensures
        with_references(references(input), outcomes) matches Ok(all) ==> all.total
            <= MAX_CONTEXT_BYTES,
{
    lemma_context_bounded(references(input), outcomes);
}

// ---------------------------------------------------------------------------------------------
// The project
// ---------------------------------------------------------------------------------------------

/// The files that may hold a project's instructions; the first one present is taken.
pub fn instruction_files() -> (r: [&'static str; 2])
    ensures
        r@.len() == 2,
        r@[0]@ == "KAMUI.md"@,
        r@[1]@ == "AGENTS.md"@,
{
    ["KAMUI.md", "AGENTS.md"]
}

/// The project that a session works on.
#[derive(Debug)]
pub struct ProjectContext {
    root: String,
    instructions: Option<(String, String)>,
}

/// What a [`ProjectContext`] stands for.
#[verifier::ext_equal]
pub struct ProjectModel {
    pub root: Seq<char>,
    /// The name and the content of the file with the project's instructions.
    pub instructions: Option<(Seq<char>, Seq<char>)>,
}

impl View for ProjectContext {
    type V = ProjectModel;

    closed spec fn view(&self) -> ProjectModel {
        ProjectModel {
            root: self.root@,
            instructions: match self.instructions {
                Some(pair) => Some((pair.0@, pair.1@)),
                None => None,
            },
        }
    }
}

/// What the caller found out about a file that may hold instructions.
#[derive(Debug)]
pub struct InstructionFacts {
    pub name: String,
    pub path: String,
    /// The size in bytes, or why it could not be had.
    pub size: Result<u64, String>,
    /// The content, or why the file is no readable text. It counts only within the limit.
    pub content: Result<String, String>,
}

/// The instructions of a project: those of the first file present.
pub open spec fn instructions_of(files: Seq<InstructionFacts>) -> Result<
    Option<(Seq<char>, Seq<char>)>,
    Trouble,
> {
    if files.len() == 0 {
        Ok(None)
    } else {
        match text_in(
            files[0].path@,
            text::res_view(files[0].size),
            text::res_view(files[0].content),
        ) {
            Ok(content) => Ok(Some((files[0].name@, content))),
            Err(e) => Err(e),
        }
    }
}

impl ProjectContext {
    /// The project at an absolute path. `present` are the files among [`instruction_files`] that
    /// are there, in that order.
    pub fn from_root(root: String, present: Vec<InstructionFacts>) -> (r: Result<
        ProjectContext,
        ContextError<String>,
    >)
        ensures
            match r {
                Ok(project) => project@.root == root@ && instructions_of(present@) == Ok::<
                    Option<(Seq<char>, Seq<char>)>,
                    Trouble,
                >(project@.instructions),
                Err(e) => instructions_of(present@) == Err::<
                    Option<(Seq<char>, Seq<char>)>,
                    Trouble,
                >(e@),
            },
    {
        let mut files = present;
        if files.len() == 0 {
            return Ok(ProjectContext { root, instructions: None });
        }
        let first = files.remove(0);
        match read_text_file(first.path.as_str(), first.size, first.content) {
            Ok(content) => Ok(ProjectContext { root, instructions: Some((first.name, content)) }),
            Err(e) => Err(e),
        }
    }

    /// The absolute path of the project.
    pub fn root(&self) -> (r: &str)
        ensures
            r@ == self@.root,
    {
        self.root.as_str()
    }

    /// The name of the file with the project's instructions.
    pub fn instruction_name(&self) -> (r: Option<&str>)
        ensures
            match r {
                Some(name) => self@.instructions is Some && name@ == (self@.instructions->0).0,
                None => self@.instructions is None,
            },
    {
        match &self.instructions {
            Some(pair) => Some(pair.0.as_str()),
            None => None,
        }
    }

    /// The instructions as a message of the system.
    pub fn system_message(&self) -> (r: Option<String>)
        ensures
            match r {
                Some(message) => self@.instructions is Some && message@
                    == "Follow the project instructions from "@ + (self@.instructions->0).0
                    + " for this conversation:\n\n"@ + (self@.instructions->0).1,
                None => self@.instructions is None,
            },
    {
        match &self.instructions {
            Some(pair) => {
                let mut out = cat("Follow the project instructions from ", pair.0.as_str());
                out.append(" for this conversation:\n\n");
                out.append(pair.1.as_str());
                Some(out)
            },
            None => None,
        }
    }

    /// Expand the references of a prompt, from what each of them led to.
    pub fn expand_file_references(&self, input: &str, outcomes: Vec<Outcome>) -> (r: Result<
        Expanded,
        ContextError<String>,
    >)
        requires
            outcomes@.len() == references(input@).len(),
            most_attached(outcomes@) <= u64::MAX,
            most_omitted(outcomes@) <= u64::MAX,
        ensures
            match r {
                Ok(all) => expanded(input@, outcomes@) == Ok::<ExpandedModel, Trouble>(all@),
                Err(e) => expanded(input@, outcomes@) == Err::<ExpandedModel, Trouble>(e@),
            },
    {
        let names = file_references(input);
        let ghost refs = references(input@);
        if names.len() == 0 {
            let out = Expanded {
                text: input.to_owned(),
                images: Vec::new(),
                attached_files: 0,
                omitted_files: 0,
            };
            assert(out@.images =~= seq![]);
            return Ok(out);
        }
        let ghost all = outcomes@;
        let mut rest = outcomes;
        let mut expansion = Expansion::new();
        let mut i: usize = 0;
        assert(all.take(0) =~= seq![]);
        while rest.len() > 0
            invariant
                i <= names.len(),
                all == outcomes@,
                refs == references(input@),
                refs.len() > 0,
                text::views(names@) == refs,
                all.len() == refs.len(),
                most_attached(all) <= u64::MAX,
                most_omitted(all) <= u64::MAX,
                rest@ == all.skip(i as int),
                expansion.wf(),
                expansion.attached <= most_attached(all.take(i as int)),
                expansion.omitted <= most_omitted(all.take(i as int)),
                with_references(refs, all.take(i as int)) == Ok::<ExpansionModel, Trouble>(
                    expansion@,
                ),
            decreases rest.len(),
        {
            let outcome = rest.remove(0);
            proof {
                assert(all[i as int] == outcome);
                assert(all.take(i + 1).drop_last() =~= all.take(i as int));
                assert(all.take(i + 1).last() == outcome);
                assert(all.skip(i as int).remove(0) =~= all.skip(i + 1));
                lemma_counts_grow(all, i + 1);
            }
            let fetched = match outcome {
                Ok(fetched) => fetched,
                Err(e) => {
                    proof {
                        lemma_references_end(refs, all, i + 1);
                    }
                    return Err(e);
                },
            };
            if let Err(e) = expansion.add(names[i].as_str(), fetched) {
                proof {
                    lemma_references_end(refs, all, i + 1);
                }
                return Err(e);
            }
            i += 1;
        }
        assert(all.take(i as int) =~= all);
        Ok(expansion.finish(input))
    }
}

/// The text of the clipboard that is attached: one that is there and not blank. Otherwise an image is
/// looked for.
pub fn clipboard_text(text: Option<String>) -> (r: Option<String>)
    ensures
        r == match text {
            Some(found) => if scan::blank(found@) {
                None
            } else {
                Some(found)
            },
            None => None,
        },
{
    match text {
        Some(found) => if is_blank(found.as_str()) {
            None
        } else {
            Some(found)
        },
        None => None,
    }
}

/// What `git diff` printed, or a note that there is nothing.
pub fn diff_text(diff: String) -> (r: String)
    ensures
        r@ == if diff@.len() == 0 {
            "(no changes)"@
        } else {
            diff@
        },
{
    if diff.as_str().is_empty() {
        "(no changes)".to_owned()
    } else {
        diff
    }
}

// ---------------------------------------------------------------------------------------------
// What expanding keeps
// ---------------------------------------------------------------------------------------------

/// What one reference adds to the prompt: its text between marks that name where it comes from, a
/// note for an image, or all that a directory brings.
pub open spec fn addition(reference: Seq<char>, outcome: Outcome) -> Seq<char> {
    let source = if reference == "diff"@ {
        "git diff"@
    } else if reference == "staged"@ {
        "git diff --staged"@
    } else {
        reference
    };
    match outcome {
        Ok(Fetched::Text(content)) => "\n\n<context source=\""@ + source + "\">\n"@ + content@
            + "\n</context>"@,
        Ok(Fetched::Image(_)) => "\n\n<context source=\""@ + reference
            + "\">(image attached)</context>"@,
        Ok(Fetched::Directory(directory)) => directory.blocks@,
        Err(_) => seq![],
    }
}

/// What some references add, one behind the other.
pub open spec fn additions(references: Seq<Seq<char>>, outcomes: Seq<Outcome>) -> Seq<Seq<char>> {
    Seq::new(outcomes.len(), |i: int| addition(references[i], outcomes[i]))
}

/// The images among some outcomes, in order.
pub open spec fn images_among(outcomes: Seq<Outcome>) -> Seq<ImageModel>
    decreases outcomes.len(),
{
    if outcomes.len() == 0 {
        seq![]
    } else {
        match outcomes.last() {
            Ok(Fetched::Image(image)) => images_among(outcomes.drop_last()).push(image@),
            _ => images_among(outcomes.drop_last()),
        }
    }
}

/// One more reference takes nothing away: what was attached before stays in front, every image that
/// was there stays, and no count shrinks.
pub proof fn law_attaching_only_adds(so_far: ExpansionModel, reference: Seq<char>, fetched: Fetched)
    requires
        with_reference(so_far, reference, fetched) is Ok,
    ensures
        ({
            let after = with_reference(so_far, reference, fetched)->Ok_0;
            &&& after.context == so_far.context + addition(reference, Ok(fetched))
            &&& so_far.images.len() <= after.images.len()
            &&& after.images.take(so_far.images.len() as int) == so_far.images
            &&& so_far.attached <= after.attached
            &&& so_far.omitted <= after.omitted
        }),
{
    let after = with_reference(so_far, reference, fetched)->Ok_0;
    assert(after.images.take(so_far.images.len() as int) =~= so_far.images);
    reveal_strlit("diff");
    reveal_strlit("staged");
    assert(after.context =~= so_far.context + addition(reference, Ok(fetched)));
}

proof fn lemma_additions(references: Seq<Seq<char>>, outcomes: Seq<Outcome>)
    requires
        with_references(references, outcomes) is Ok,
    ensures
        ({
            let all = with_references(references, outcomes)->Ok_0;
            &&& all.context == additions(references, outcomes).flatten()
            &&& all.images == images_among(outcomes)
            &&& forall|i: int| 0 <= i < outcomes.len() ==> #[trigger] outcomes[i] is Ok
        }),
    decreases outcomes.len(),
{
    if outcomes.len() == 0 {
        assert(additions(references, outcomes) =~= seq![]);
    } else {
        let front = outcomes.drop_last();
        let n = outcomes.len() - 1;
        lemma_additions(references, front);
        let so_far = with_references(references, front)->Ok_0;
        law_attaching_only_adds(so_far, references[n], outcomes.last()->Ok_0);
        let last = addition(references[n], outcomes.last());
        assert(additions(references, outcomes) =~= additions(references, front).push(last));
        additions(references, front).lemma_flatten_push(last);
        assert forall|i: int| 0 <= i < outcomes.len() implies #[trigger] outcomes[i] is Ok by {
            if i < n {
                assert(front[i] == outcomes[i]);
            }
        }
    }
}

/// An expanded prompt holds what was typed, and behind it what every reference led to, whole and in
/// the order of the references. Each text stands there under the name of its source, and each image
/// is carried along.
pub proof fn law_expanded_prompts_hold_everything(input: Seq<char>, outcomes: Seq<Outcome>, i: int)
    requires
        references(input).len() > 0,
        outcomes.len() == references(input).len(),
        expanded(input, outcomes) is Ok,
        0 <= i < outcomes.len(),
    ensures
        ({
            let text = expanded(input, outcomes)->Ok_0.text;
            let added = additions(references(input), outcomes).flatten();
            &&& text == input + "\n\nAttached project context:"@ + added
            &&& outcomes[i] is Ok
            &&& text::stands_in(text, addition(references(input)[i], outcomes[i]))
            &&& outcomes[i] matches Ok(Fetched::Text(content)) ==> text::stands_in(text, content@)
            &&& expanded(input, outcomes)->Ok_0.images == images_among(outcomes)
        }),
{
    let refs = references(input);
    lemma_additions(refs, outcomes);
    let pieces = additions(refs, outcomes);
    let added = pieces.flatten();
    let text = expanded(input, outcomes)->Ok_0.text;
    let head = input + "\n\nAttached project context:"@;
    let nothing = Seq::<char>::empty();
    assert(text =~= head + added + nothing);
    text::lemma_stands_in_flat(pieces, i);
    text::lemma_stands_deeper(text, head, added, nothing, pieces[i]);
    if let Ok(Fetched::Text(content)) = outcomes[i] {
        let source = if refs[i] == "diff"@ {
            "git diff"@
        } else if refs[i] == "staged"@ {
            "git diff --staged"@
        } else {
            refs[i]
        };
        let front = "\n\n<context source=\""@ + source + "\">\n"@;
        let back = "\n</context>"@;
        text::lemma_stands_between(front, content@, back);
        assert(pieces[i] =~= front + content@ + back);
        text::lemma_stands_deeper(added, nothing, added, nothing, pieces[i]);
        let at = choose|at: int|
            0 <= at && at + pieces[i].len() <= text.len() && #[trigger] text.subrange(
                at,
                at + pieces[i].len(),
            ) == pieces[i];
        let before = text.take(at);
        let after = text.skip(at + pieces[i].len());
        assert(text =~= before + pieces[i] + after);
        text::lemma_stands_deeper(text, before, pieces[i], after, content@);
    }
}

/// How many bytes of text the files of a directory have altogether; nothing where one is no text.
pub open spec fn all_bytes(files: Seq<DirectoryFile>) -> Option<int>
    decreases files.len(),
{
    if files.len() == 0 {
        Some(0)
    } else {
        match (all_bytes(files.drop_last()), files.last().content) {
            (Some(before), Some(content)) => Some(before + bytes(content@)),
            _ => None,
        }
    }
}

/// What the files of a directory add, each under its own path.
pub open spec fn file_blocks(files: Seq<DirectoryFile>) -> Seq<Seq<char>> {
    Seq::new(
        files.len(),
        |i: int|
            "\n\n<context source=\""@ + files[i].label@ + "\">\n"@ + (match files[i].content {
                Some(content) => content@,
                None => seq![],
            }) + "\n</context>"@,
    )
}

proof fn lemma_all_files(budget: int, files: Seq<DirectoryFile>)
    requires
        files.len() <= MAX_DIRECTORY_FILES,
        all_bytes(files) matches Some(total) && total <= budget,
    ensures
        ({
            let all = with_files(budget, files);
            &&& all.blocks == file_blocks(files).flatten()
            &&& all.attached == files.len()
            &&& all.omitted == 0
            &&& all.used == all_bytes(files)->0
        }),
        all_bytes(files)->0 >= 0,
    decreases files.len(),
{
    if files.len() == 0 {
        assert(file_blocks(files) =~= seq![]);
    } else {
        let front = files.drop_last();
        lemma_all_bytes(front);
        lemma_all_files(budget, front);
        let last = file_blocks(files).last();
        assert(file_blocks(files) =~= file_blocks(front).push(last));
        file_blocks(front).lemma_flatten_push(last);
        let all = with_files(budget, files);
        assert(all.blocks =~= with_files(budget, front).blocks + last);
    }
}

proof fn lemma_all_bytes(files: Seq<DirectoryFile>)
    ensures
        all_bytes(files) matches Some(total) ==> total >= 0,
    decreases files.len(),
{
    if files.len() > 0 {
        lemma_all_bytes(files.drop_last());
    }
}

/// A directory whose files are all text, few enough and within the budget is attached whole: every
/// file, in order, under its path, and none is left out.
pub proof fn law_small_directories_are_attached_whole(
    reference: Seq<char>,
    budget: int,
    files: Seq<DirectoryFile>,
)
    requires
        0 < files.len() <= MAX_DIRECTORY_FILES,
        all_bytes(files) matches Some(total) && total <= budget,
    ensures
        directory_done(reference, with_files(budget, files)) matches Ok(done) && done.blocks
            == file_blocks(files).flatten() && done.attached == files.len() && done.omitted == 0,
{
    lemma_all_files(budget, files);
}

/// A file that is text and for which there is room is attached, whatever came before it, and what
/// came before stays.
pub proof fn law_files_with_room_are_attached(budget: int, so_far: DirectoryModel, file: DirectoryFile)
    requires
        file.content is Some,
        so_far.attached < MAX_DIRECTORY_FILES,
        so_far.used + bytes(file.content->0@) <= budget,
    ensures
        ({
            let after = with_file(so_far, budget, file);
            &&& after.blocks == so_far.blocks + "\n\n<context source=\""@ + file.label@ + "\">\n"@
                + file.content->0@ + "\n</context>"@
            &&& after.attached == so_far.attached + 1
            &&& after.omitted == so_far.omitted
        }),
{
    let after = with_file(so_far, budget, file);
    assert(after.blocks =~= so_far.blocks + "\n\n<context source=\""@ + file.label@ + "\">\n"@
        + file.content->0@ + "\n</context>"@);
}

/// A file that is read is read whole, from inside the project, and is no larger than the limit.
pub proof fn law_files_are_read_whole(root: Seq<char>, reference: Seq<char>, facts: FileFacts)
    requires
        file_in(root, reference, facts) is Ok,
    ensures
        facts.content matches Ok(content) && file_in(root, reference, facts)->Ok_0 == content@,
        facts.size matches Ok(size) && size <= 65536,
        facts.is_file,
        facts.found matches Ok(path) && path::within(root, path@),
{
}

proof fn lemma_names_hold(entries: Seq<Entry>, dirs: bool, i: int)
    requires
        0 <= i < entries.len(),
        entries[i].name@ != ".git"@,
        entries[i].is_dir == dirs,
    ensures
        names_of(entries, dirs).contains(entries[i].name@),
    decreases entries.len(),
{
    let front = entries.drop_last();
    let all = names_of(entries, dirs);
    if i < front.len() {
        lemma_names_hold(front, dirs, i);
        let k = choose|k: int|
            0 <= k < names_of(front, dirs).len() && names_of(front, dirs)[k] == entries[i].name@;
        assert(all[k] == entries[i].name@);
    } else {
        assert(all.last() == entries[i].name@);
    }
}

proof fn lemma_names_from(entries: Seq<Entry>, dirs: bool, name: Seq<char>)
    requires
        names_of(entries, dirs).contains(name),
    ensures
        exists|i: int|
            0 <= i < entries.len() && (#[trigger] entries[i]).name@ == name && entries[i].is_dir
                == dirs && name != ".git"@,
    decreases entries.len(),
{
    let front = entries.drop_last();
    let all = names_of(entries, dirs);
    let k = choose|k: int| 0 <= k < all.len() && all[k] == name;
    if k < names_of(front, dirs).len() {
        assert(names_of(front, dirs)[k] == name);
        lemma_names_from(front, dirs, name);
        let i = choose|i: int|
            0 <= i < front.len() && (#[trigger] front[i]).name@ == name && front[i].is_dir == dirs
                && name != ".git"@;
        assert(entries[i] == front[i]);
    } else {
        assert(entries[entries.len() - 1].name@ == name);
    }
}

/// Some entry has the given name, and is a directory or not.
pub open spec fn is_entry(entries: Seq<Entry>, dir: bool, name: Seq<char>) -> bool {
    exists|j: int|
        0 <= j < entries.len() && (#[trigger] entries[j]).is_dir == dir && entries[j].name@ == name
}

/// The names of directories, each with a slash, and behind them other names.
pub open spec fn dirs_first(dirs: Seq<Seq<char>>, files: Seq<Seq<char>>) -> Seq<Seq<char>> {
    Seq::new(dirs.len(), |k: int| dirs[k] + "/"@) + files
}

/// A listing has a line for each entry but `.git`, and no other line; a directory is marked by a
/// slash. The directories come first, and each kind stands in order.
pub proof fn law_listings_name_every_entry(entries: Seq<Entry>)
    ensures
        forall|i: int|
            0 <= i < entries.len() && (#[trigger] entries[i]).name@ != ".git"@ ==> listing_lines(
                entries,
            ).contains(
                if entries[i].is_dir {
                    entries[i].name@ + "/"@
                } else {
                    entries[i].name@
                },
            ),
        exists|dirs: Seq<Seq<char>>, files: Seq<Seq<char>>|
            listing_lines(entries) == #[trigger] dirs_first(dirs, files) && order::sorted(dirs)
                && order::sorted(files) && (forall|k: int|
                0 <= k < dirs.len() ==> is_entry(entries, true, #[trigger] dirs[k])) && (forall|k: int|
                0 <= k < files.len() ==> is_entry(entries, false, #[trigger] files[k])),
{
    let dirs = order::in_order(names_of(entries, true));
    let files = order::in_order(names_of(entries, false));
    lemma_in_order(names_of(entries, true));
    lemma_in_order(names_of(entries, false));
    let lines = listing_lines(entries);
    assert(lines =~= dirs_first(dirs, files));
    assert forall|i: int| 0 <= i < entries.len() && (#[trigger] entries[i]).name@ != ".git"@ implies
        lines.contains(
        if entries[i].is_dir {
            entries[i].name@ + "/"@
        } else {
            entries[i].name@
        },
    ) by {
        let name = entries[i].name@;
        lemma_names_hold(entries, entries[i].is_dir, i);
        if entries[i].is_dir {
            assert(dirs.contains(name));
            let k = choose|k: int| 0 <= k < dirs.len() && dirs[k] == name;
            assert(lines[k] == name + "/"@);
        } else {
            assert(files.contains(name));
            let k = choose|k: int| 0 <= k < files.len() && files[k] == name;
            assert(lines[dirs.len() + k] == name);
        }
    }
    assert forall|k: int| 0 <= k < dirs.len() implies is_entry(entries, true, #[trigger] dirs[k]) by {
        assert(dirs.contains(dirs[k]));
        lemma_names_from(entries, true, dirs[k]);
    }
    assert forall|k: int| 0 <= k < files.len() implies is_entry(
        entries,
        false,
        #[trigger] files[k],
    ) by {
        assert(files.contains(files[k]));
        lemma_names_from(entries, false, files[k]);
    }
}

proof fn lemma_in_order(s: Seq<Seq<char>>)
    ensures
        order::sorted(order::in_order(s)),
        forall|x: Seq<char>| #[trigger] order::in_order(s).contains(x) <==> s.contains(x),
{
    order::law_in_order(s);
    broadcast use vstd::seq_lib::group_to_multiset_ensures;

    assert forall|x: Seq<char>| #[trigger] order::in_order(s).contains(x) <==> s.contains(x) by {
        assert(order::in_order(s).contains(x) <==> order::in_order(s).to_multiset().count(x) > 0);
        assert(s.contains(x) <==> s.to_multiset().count(x) > 0);
    }
}

// ---------------------------------------------------------------------------------------------
// What a prompt refers to
// ---------------------------------------------------------------------------------------------

/// Every reference in a prompt is followed, and only those: a word that refers to something puts that
/// among the references, and each of these comes from such a word. A later word takes none away.
pub proof fn law_every_reference_is_followed(words: Seq<Seq<char>>, i: int, reference: Seq<char>)
    ensures
        0 <= i < words.len() ==> (reference_in(words[i]) matches Some(found) ==> references_in(
            words,
        ).contains(found)),
        references_in(words).contains(reference) ==> exists|k: int|
            0 <= k < words.len() && reference_in(#[trigger] words[k]) == Some(reference),
        0 <= i < words.len() ==> references_in(words.take(i)).is_prefix_of(references_in(words)),
    decreases words.len(),
{
    if words.len() > 0 {
        let front = words.drop_last();
        let before = references_in(front);
        let all = references_in(words);
        let n = front.len() as int;
        law_every_reference_is_followed(front, i, reference);
        assert(words.take(n) =~= front);
        if 0 <= i < n {
            assert(front[i] == words[i]);
            assert(front.take(i) =~= words.take(i));
            if let Some(found) = reference_in(words[i]) {
                let k = before.index_of(found);
                assert(all[k] == found);
            }
        } else if i == n {
            if let Some(found) = reference_in(words[i]) {
                if !before.contains(found) {
                    assert(all[before.len() as int] == found);
                }
            }
        }
        if all.contains(reference) {
            if before.contains(reference) {
                let k = choose|k: int|
                    0 <= k < front.len() && reference_in(#[trigger] front[k]) == Some(reference);
                assert(words[k] == front[k]);
            } else {
                let k = all.index_of(reference);
                assert(k == before.len());
                assert(reference_in(words[n]) == Some(reference));
            }
        }
    }
}

/// A word refers to what stands behind its sign, as it is written, and a word without the sign refers
/// to nothing. Marks at the end of a sentence are no part of it.
pub proof fn law_references_are_written_with_a_sign(name: Seq<char>, word: Seq<char>)
    requires
        name.len() > 0,
        !punctuation().contains(name[0]),
        !punctuation().contains(name.last()),
    ensures
        reference_in(seq!['@'] + name) == Some(name),
        reference_in(seq!['@'] + name.push(',')) == Some(name),
        word.len() > 0 && word[0] != '@' ==> reference_in(word) is None,
{
    let p = scan::one_of(punctuation());
    assert((seq!['@'] + name).skip(1) =~= name);
    assert(scan::span(name, p) == 0);
    assert(scan::trim_front(name, p) =~= name);
    assert(scan::span_back(name, p) == 0);
    assert(scan::trim_back(name, p) =~= name);
    let more = name.push(',');
    assert((seq!['@'] + more).skip(1) =~= more);
    assert(more[0] == name[0]);
    assert(scan::span(more, p) == 0);
    assert(scan::trim_front(more, p) =~= more);
    assert(punctuation()[0] == ',');
    assert(p(','));
    assert(more.drop_last() =~= name);
    assert(scan::span_back(more, p) == 1);
    assert(scan::trim_back(more, p) =~= name);
}

/// What can be read is read: a text file up to the limit, whole, and an image up to its own limit, as
/// the bytes that it has under the kind that its name gives.
pub proof fn law_what_can_be_read_is_read(
    path: Seq<char>,
    size: u64,
    content: Seq<char>,
    kind: ImageKind,
    png: Seq<u8>,
)
    ensures
        size <= 65536 ==> text_in(path, Ok(size), Ok(content)) == Ok::<Seq<char>, Trouble>(content),
        size > 65536 ==> text_in(path, Ok(size), Ok(content)) is Err,
        image_of(kind, png).data == base64_of(png),
        image_of(kind, png).media_type == match kind {
            ImageKind::Png => "image/png"@,
            ImageKind::Jpeg => "image/jpeg"@,
            ImageKind::Gif => "image/gif"@,
            ImageKind::Webp => "image/webp"@,
        },
        png.len() <= 5242880 ==> (clipboard_image(Ok(png)) matches Ok(image) && image.data
            == base64_of(png)),
        png.len() > 5242880 ==> clipboard_image(Ok(png)) is Err,
{
}

/// An image that is read is the one that was referred to, inside the project and within the limit,
/// with all its bytes.
pub proof fn law_images_are_read_whole(
    root: Seq<char>,
    reference: Seq<char>,
    kind: ImageKind,
    facts: ImageFacts,
)
    ensures
        image_in(root, reference, kind, facts) matches Ok(image) ==> facts.data is Ok && image.data
            == base64_of(facts.data->Ok_0@) && facts.is_file && facts.size is Ok && facts.size->Ok_0
            <= 5242880 && facts.found is Ok && path::within(root, facts.found->Ok_0@),
        path::resolved(root, reference, text::res_view(facts.found)) is Ok && facts.is_file && (
        facts.size matches Ok(size) && size <= 5242880) && facts.data is Ok ==> image_in(
            root,
            reference,
            kind,
            facts,
        ) is Ok,
{
}

/// What a directory leaves out is said, with how much it is, behind all that it brings.
#[verifier::rlimit(50)]
pub proof fn law_omissions_are_told(reference: Seq<char>, all: DirectoryModel)
    requires
        all.attached > 0,
        all.omitted >= 0,
    ensures
        directory_done(reference, all) matches Ok(done) && all.blocks.is_prefix_of(done.blocks)
            && done.attached == all.attached && done.omitted == all.omitted && done.used == all.used
            && (all.omitted == 0 ==> done.blocks == all.blocks) && (all.omitted > 0
            ==> text::stands_in(done.blocks, number::decimal(all.omitted as nat))),
{
    let note = omission(reference, all.omitted as nat);
    if all.omitted > 0 {
        assert(text::stands_in(note, number::decimal(all.omitted as nat))) by {
            broadcast use text::group_stands;

        }
        text::lemma_stands_added(all.blocks, note, number::decimal(all.omitted as nat));
    }
}

/// The project's instructions are those of the first file that is there, whole; where there is none
/// there are none.
pub proof fn law_the_first_instructions_hold(files: Seq<InstructionFacts>)
    ensures
        files.len() == 0 ==> instructions_of(files) == Ok::<
            Option<(Seq<char>, Seq<char>)>,
            Trouble,
        >(None),
        files.len() > 0 ==> (instructions_of(files) matches Ok(found) ==> (files[0].content
            matches Ok(content) && found == Some((files[0].name@, content@)))),
        files.len() > 0 && (files[0].size matches Ok(size) && size <= 65536)
            && files[0].content is Ok ==> instructions_of(files) is Ok,
{
}

/// What is attached bears the name by which it was referred to, but for the two that stand for a
/// command.
pub proof fn law_attachments_bear_their_name(reference: Seq<char>, ending: Seq<char>)
    ensures
        reference != "diff"@ && reference != "staged"@ ==> label_of(reference) == reference,
        source_spec("diff"@) == Source::Diff,
        source_spec("staged"@) == Source::Staged,
        source_spec("clipboard"@) == Source::Clipboard,
        kind_of(scan::lower(ending)) == kind_of(ending),
{
    reveal_strlit("diff");
    reveal_strlit("staged");
    reveal_strlit("clipboard");
    assert("diff"@.len() == 4 && "staged"@.len() == 6 && "clipboard"@.len() == 9);
    assert(scan::lower(scan::lower(ending)) =~= scan::lower(ending));
}

/// A directory inside the project is listed, and nothing else is.
pub proof fn law_directories_inside_are_listed(
    root: Seq<char>,
    reference: Seq<char>,
    found: path::Found,
    is_dir: bool,
    entries: Seq<Entry>,
)
    ensures
        path::resolved(root, reference, found) is Ok && is_dir ==> directory_in(
            root,
            reference,
            found,
            is_dir,
            entries,
        ) == Ok::<Seq<char>, Trouble>(listing(entries)),
        !is_dir ==> directory_in(root, reference, found, is_dir, entries) is Err,
        directory_in(root, reference, found, is_dir, entries) is Ok ==> found is Ok && path::within(
            root,
            found->Ok_0,
        ),
{
}

/// Why something was not attached names it, and the cause where there is one.
#[verifier::rlimit(50)]
pub proof fn law_context_errors_name_what_was_asked(
    reference: Seq<char>,
    path: Seq<char>,
    cause: Seq<char>,
)
    ensures
        text::stands_in((ContextError::NotAFile { reference }).words(), reference),
        text::stands_in((ContextError::NotADirectory { reference }).words(), reference),
        text::stands_in((ContextError::FileTooLarge { path }).words(), path),
        text::stands_in((ContextError::NotInspected { path, cause }).words(), path),
        text::stands_in((ContextError::NotInspected { path, cause }).words(), cause),
        text::stands_in((ContextError::NotText { path, cause }).words(), path),
        text::stands_in((ContextError::NotText { path, cause }).words(), cause),
        text::stands_in((ContextError::NotRead { path, cause }).words(), path),
        text::stands_in((ContextError::NotRead { path, cause }).words(), cause),
        text::stands_in((ContextError::ImageTooLarge { reference }).words(), reference),
        text::stands_in((ContextError::NothingToAttach { reference }).words(), reference),
        text::stands_in((ContextError::NotEncoded { cause }).words(), cause),
        (ContextError::Unreadable { cause }).words() == cause,
{
    broadcast use text::group_stands;

}

} // verus!
