//! Paths inside a project, as text.
//!
//! A path is written as the system writes it: with `/` between components, or, on Windows, with `\`
//! or `/`. Which of the two it is, the project's root tells: on Windows an absolute path begins
//! with a drive letter or with `\`, and elsewhere none does.
//!
//! What only the file system can tell, the absolute path that a path leads to once links are
//! followed, comes in as an argument.
use crate::scan;
use crate::split;
use crate::split::split_char;
use crate::text;
use crate::text::{cat, cat3, chars_of, same, slice_text, string_of};
use vstd::prelude::*;
use vstd::string::*;

verus! {

broadcast use crate::text::group_views;

/// A part of a path that names something.
pub open spec fn names_something(part: Seq<char>) -> bool {
    part.len() > 0 && part != "."@
}

/// The components of a path: what stands between slashes, without empty parts and dots.
pub open spec fn components(path: Seq<char>) -> Seq<Seq<char>> {
    split::parts(path, '/').filter(|part: Seq<char>| names_something(part))
}

/// The path begins with a drive letter.
pub open spec fn drive(path: Seq<char>) -> bool {
    path.len() >= 2 && path[1] == ':' && ('a' <= path[0] <= 'z' || 'A' <= path[0] <= 'Z')
}

/// The path, which is absolute, is one of Windows.
pub open spec fn windows(path: Seq<char>) -> bool {
    drive(path) || (path.len() > 0 && path[0] == '\\')
}

/// The path with `/` for every separator.
pub open spec fn slashed(path: Seq<char>, windows: bool) -> Seq<char> {
    path.map_values(
        |c: char|
            if windows && c == '\\' {
                '/'
            } else {
                c
            },
    )
}

/// The components of a path of the system at hand.
pub open spec fn parts_of(path: Seq<char>, windows: bool) -> Seq<Seq<char>> {
    components(slashed(path, windows))
}

/// The path says all by itself where it leads: it starts at the root of the file system, or, on
/// Windows, at that of a drive or at a server.
pub open spec fn absolute(path: Seq<char>, windows: bool) -> bool {
    let plain = slashed(path, windows);
    if windows {
        ||| plain.len() >= 2 && plain[0] == '/' && plain[1] == '/'
        ||| drive(plain) && plain.len() >= 3 && plain[2] == '/'
    } else {
        plain.len() > 0 && plain[0] == '/'
    }
}

fn is_drive(chars: &[char]) -> (r: bool)
    ensures
        r == drive(chars@),
{
    chars.len() >= 2 && chars[1] == ':' && (('a' <= chars[0] && chars[0] <= 'z') || ('A' <= chars[0]
        && chars[0] <= 'Z'))
}

/// Whether the path, which is absolute, is one of Windows.
pub fn is_windows(path: &str) -> (r: bool)
    ensures
        r == windows(path@),
{
    let chars = chars_of(path);
    is_drive(&chars) || (chars.len() > 0 && chars[0] == '\\')
}

/// The characters of the path with `/` for every separator.
pub fn with_slashes(path: &str, windows: bool) -> (r: Vec<char>)
    ensures
        r@ == slashed(path@, windows),
{
    let chars = chars_of(path);
    let mut out: Vec<char> = Vec::new();
    let mut i: usize = 0;
    while i < chars.len()
        invariant
            i <= chars.len(),
            chars@ == path@,
            out@ =~= slashed(path@, windows).take(i as int),
        decreases chars.len() - i,
    {
        let c = chars[i];
        out.push(
            if windows && c == '\\' {
                '/'
            } else {
                c
            },
        );
        i += 1;
    }
    assert(out@ =~= slashed(path@, windows));
    out
}

/// Whether the path says all by itself where it leads.
pub fn is_absolute(path: &str, windows: bool) -> (r: bool)
    ensures
        r == absolute(path@, windows),
{
    let plain = with_slashes(path, windows);
    if windows {
        (plain.len() >= 2 && plain[0] == '/' && plain[1] == '/') || (is_drive(&plain) && plain.len()
            >= 3 && plain[2] == '/')
    } else {
        plain.len() > 0 && plain[0] == '/'
    }
}

/// The components of a path.
pub fn components_of(path: &str) -> (r: Vec<String>)
    ensures
        text::views(r@) == components(path@),
{
    let parts = split_char(path, '/');
    let ghost all = split::parts(path@, '/');
    let ghost keep = |part: Seq<char>| names_something(part);
    let mut out: Vec<String> = Vec::new();
    let mut i: usize = 0;
    assert(all.take(0).filter(keep) =~= seq![]) by {
        reveal(Seq::filter);
    }
    assert(text::views(out@) =~= seq![]);
    while i < parts.len()
        invariant
            i <= parts.len(),
            all == text::views(parts@),
            keep == (|part: Seq<char>| names_something(part)),
            text::views(out@) == all.take(i as int).filter(keep),
        decreases parts.len() - i,
    {
        let ghost before = text::views(out@);
        proof {
            reveal(Seq::filter);
            assert(all.take(i + 1).drop_last() =~= all.take(i as int));
        }
        if !parts[i].as_str().is_empty() && !same(parts[i].as_str(), ".") {
            out.push(parts[i].clone());
            assert(text::views(out@) =~= before.push(all[i as int]));
        }
        i += 1;
    }
    assert(all.take(i as int) =~= all);
    out
}

/// The components of a path of the system at hand.
pub fn components_in(path: &str, windows: bool) -> (r: Vec<String>)
    ensures
        text::views(r@) == parts_of(path@, windows),
{
    let plain = string_of(&with_slashes(path, windows));
    components_of(plain.as_str())
}

/// `front` is how `all` begins.
pub open spec fn begins_with(all: Seq<Seq<char>>, front: Seq<Seq<char>>) -> bool {
    front.len() <= all.len() && all.take(front.len() as int) == front
}

/// The path is the root of the project or inside it.
pub open spec fn within(root: Seq<char>, path: Seq<char>) -> bool {
    let windows = windows(root);
    absolute(root, windows) == absolute(path, windows) && begins_with(
        parts_of(path, windows),
        parts_of(root, windows),
    )
}

/// Whether the path is the root of the project or inside it.
pub fn is_within(root: &str, path: &str) -> (r: bool)
    ensures
        r == within(root@, path@),
{
    let windows = is_windows(root);
    if is_absolute(root, windows) != is_absolute(path, windows) {
        return false;
    }
    let front = components_in(root, windows);
    let all = components_in(path, windows);
    let ghost wanted = parts_of(root@, windows);
    let ghost found = parts_of(path@, windows);
    if front.len() > all.len() {
        return false;
    }
    let mut i: usize = 0;
    while i < front.len()
        invariant
            i <= front.len() <= all.len(),
            text::views(front@) == wanted,
            text::views(all@) == found,
            wanted == parts_of(root@, windows),
            found == parts_of(path@, windows),
            windows == self::windows(root@),
            forall|j: int| 0 <= j < i ==> #[trigger] found[j] == wanted[j],
        decreases front.len() - i,
    {
        if !same(front[i].as_str(), all[i].as_str()) {
            assert(found.take(wanted.len() as int)[i as int] != wanted[i as int]);
            return false;
        }
        i += 1;
    }
    assert(found.take(wanted.len() as int) =~= wanted);
    true
}

/// Why a path is refused. `T` is text: `String` in a value, `Seq<char>` in its model.
#[derive(Debug)]
pub enum PathError<T> {
    Absolute { reference: T },
    NotFound { reference: T, root: T, cause: T },
    Outside { reference: T },
    NoParent { reference: T },
    ParentNotFound { reference: T, root: T, cause: T },
    NoName { reference: T },
}

impl View for PathError<String> {
    type V = PathError<Seq<char>>;

    open spec fn view(&self) -> PathError<Seq<char>> {
        match self {
            PathError::Absolute { reference } => PathError::Absolute { reference: reference@ },
            PathError::NotFound { reference, root, cause } => PathError::NotFound {
                reference: reference@,
                root: root@,
                cause: cause@,
            },
            PathError::Outside { reference } => PathError::Outside { reference: reference@ },
            PathError::NoParent { reference } => PathError::NoParent { reference: reference@ },
            PathError::ParentNotFound { reference, root, cause } => PathError::ParentNotFound {
                reference: reference@,
                root: root@,
                cause: cause@,
            },
            PathError::NoName { reference } => PathError::NoName { reference: reference@ },
        }
    }
}

impl PathError<Seq<char>> {
    /// What the user reads.
    pub open spec fn words(self) -> Seq<char> {
        match self {
            PathError::Absolute { reference } => "path must be relative to the project: "@
                + reference,
            PathError::NotFound { reference, root, cause } => "could not access "@ + reference
                + " relative to "@ + root + ": "@ + cause,
            PathError::Outside { reference } => "path is outside the project: "@ + reference,
            PathError::NoParent { reference } => "path has no parent directory: "@ + reference,
            PathError::ParentNotFound { reference, root, cause } => "the parent directory of "@
                + reference + " does not exist in "@ + root + ": "@ + cause,
            PathError::NoName { reference } => "path has no file name: "@ + reference,
        }
    }
}

impl PathError<String> {
    /// What the user reads.
    pub fn message(&self) -> (r: String)
        ensures
            r@ == self@.words(),
    {
        match self {
            PathError::Absolute { reference } => cat(
                "path must be relative to the project: ",
                reference.as_str(),
            ),
            PathError::NotFound { reference, root, cause } => {
                let mut out = cat3("could not access ", reference.as_str(), " relative to ");
                out.append(root.as_str());
                out.append(": ");
                out.append(cause.as_str());
                out
            },
            PathError::Outside { reference } => cat(
                "path is outside the project: ",
                reference.as_str(),
            ),
            PathError::NoParent { reference } => cat(
                "path has no parent directory: ",
                reference.as_str(),
            ),
            PathError::ParentNotFound { reference, root, cause } => {
                let mut out = cat3(
                    "the parent directory of ",
                    reference.as_str(),
                    " does not exist in ",
                );
                out.append(root.as_str());
                out.append(": ");
                out.append(cause.as_str());
                out
            },
            PathError::NoName { reference } => cat("path has no file name: ", reference.as_str()),
        }
    }
}

/// What only the file system can tell of a path: the absolute path behind it, or why there is none.
pub type Found = Result<Seq<char>, Seq<char>>;

/// The outcome of resolving a path, in a contract.
pub type Resolved = Result<Seq<char>, PathError<Seq<char>>>;

/// The path that a reference inside a project leads to. `found` is the absolute path behind it, or
/// why there is none.
pub open spec fn resolved(root: Seq<char>, reference: Seq<char>, found: Found) -> Resolved {
    if absolute(reference, windows(root)) {
        Err(PathError::Absolute { reference })
    } else {
        match found {
            Err(cause) => Err(PathError::NotFound { reference, root, cause }),
            Ok(path) => if within(root, path) {
                Ok(path)
            } else {
                Err(PathError::Outside { reference })
            },
        }
    }
}

/// Resolve a reference inside a project. An absolute path is refused, and so is one that leads
/// out of the root once links are followed.
pub fn resolve_within_root(root: &str, reference: &str, found: Result<String, String>) -> (r: Result<
    String,
    PathError<String>,
>)
    ensures
        text::res_view(r) == resolved(root@, reference@, text::res_view(found)),
{
    if is_absolute(reference, is_windows(root)) {
        return Err(PathError::Absolute { reference: reference.to_owned() });
    }
    match found {
        Err(cause) => Err(
            PathError::NotFound { reference: reference.to_owned(), root: root.to_owned(), cause },
        ),
        Ok(path) => {
            if is_within(root, path.as_str()) {
                Ok(path)
            } else {
                Err(PathError::Outside { reference: reference.to_owned() })
            }
        },
    }
}

/// The components of the root and of the reference, one behind the other.
pub open spec fn joined_parts(root: Seq<char>, reference: Seq<char>) -> Seq<Seq<char>> {
    parts_of(root, windows(root)) + parts_of(reference, windows(root))
}

/// The components of the root and of the reference, one behind the other.
fn joined_components(root: &str, reference: &str) -> (r: Vec<String>)
    ensures
        text::views(r@) == joined_parts(root@, reference@),
{
    let windows = is_windows(root);
    let mut all = components_in(root, windows);
    let mut more = components_in(reference, windows);
    let ghost front = text::views(all@);
    all.append(&mut more);
    assert(text::views(all@) =~= front + parts_of(reference@, windows));
    all
}

/// A character that separates components.
pub open spec fn separates(c: char, windows: bool) -> bool {
    c == '/' || (windows && c == '\\')
}

/// A path below a directory.
pub open spec fn below(directory: Seq<char>, name: Seq<char>, windows: bool) -> Seq<char> {
    if directory.len() > 0 && separates(directory.last(), windows) {
        directory + name
    } else if windows {
        directory + "\\"@ + name
    } else {
        directory + "/"@ + name
    }
}

/// Why a file stands for no directory.
pub const NO_DIRECTORY: &'static str = "not a directory";

/// Where a new file goes. `found` is the absolute path of what stands in its directory's place, or
/// why there is nothing, and `is_dir` tells whether that is a directory.
pub open spec fn write_path(
    root: Seq<char>,
    reference: Seq<char>,
    found: Found,
    is_dir: bool,
) -> Resolved {
    let all = joined_parts(root, reference);
    if absolute(reference, windows(root)) {
        Err(PathError::Absolute { reference })
    } else if all.len() == 0 {
        Err(PathError::NoParent { reference })
    } else {
        match found {
            Err(cause) => Err(PathError::ParentNotFound { reference, root, cause }),
            Ok(parent) => if !is_dir {
                Err(PathError::ParentNotFound { reference, root, cause: NO_DIRECTORY@ })
            } else if !within(root, parent) {
                Err(PathError::Outside { reference })
            } else if all.last() == ".."@ {
                Err(PathError::NoName { reference })
            } else {
                Ok(below(parent, all.last(), windows(root)))
            },
        }
    }
}

/// Resolve a path for writing. The file need not exist yet, but its directory must, inside the
/// project.
pub fn resolve_for_write(
    root: &str,
    reference: &str,
    found: Result<String, String>,
    is_dir: bool,
) -> (r: Result<String, PathError<String>>)
    ensures
        text::res_view(r) == write_path(root@, reference@, text::res_view(found), is_dir),
{
    let windows = is_windows(root);
    if is_absolute(reference, windows) {
        return Err(PathError::Absolute { reference: reference.to_owned() });
    }
    let all = joined_components(root, reference);
    let ghost parts = joined_parts(root@, reference@);
    assert(parts.len() == all.len());
    if all.len() == 0 {
        return Err(PathError::NoParent { reference: reference.to_owned() });
    }
    let name = &all[all.len() - 1];
    assert(name@ == parts.last());
    match found {
        Err(cause) => Err(
            PathError::ParentNotFound {
                reference: reference.to_owned(),
                root: root.to_owned(),
                cause,
            },
        ),
        Ok(parent) => {
            if !is_dir {
                return Err(
                    PathError::ParentNotFound {
                        reference: reference.to_owned(),
                        root: root.to_owned(),
                        cause: NO_DIRECTORY.to_owned(),
                    },
                );
            }
            if !is_within(root, parent.as_str()) {
                return Err(PathError::Outside { reference: reference.to_owned() });
            }
            if same(name.as_str(), "..") {
                return Err(PathError::NoName { reference: reference.to_owned() });
            }
            let chars = chars_of(parent.as_str());
            if chars.len() > 0 && (chars[chars.len() - 1] == '/' || (windows && chars[chars.len()
                - 1] == '\\')) {
                Ok(cat(parent.as_str(), name.as_str()))
            } else if windows {
                Ok(cat3(parent.as_str(), "\\", name.as_str()))
            } else {
                Ok(cat3(parent.as_str(), "/", name.as_str()))
            }
        },
    }
}

/// A component names something, and holds no separator.
proof fn lemma_component(path: Seq<char>, windows: bool, i: int)
    requires
        0 <= i < parts_of(path, windows).len(),
    ensures
        names_something(parts_of(path, windows)[i]),
        !parts_of(path, windows)[i].contains('/'),
        windows ==> !parts_of(path, windows)[i].contains('\\'),
{
    let plain = slashed(path, windows);
    let all = split::parts(plain, '/');
    let keep = |part: Seq<char>| names_something(part);
    all.lemma_filter_pred(keep, i);
    lemma_filtered(all, keep, i);
    let k = choose|k: int| 0 <= k < all.len() && all[k] == all.filter(keep)[i];
    split::lemma_parts_hold_no_separator(plain, '/', 0, k);
    if windows {
        assert(!plain.contains('\\'));
        split::lemma_parts_bring_nothing(plain, '/', 0, k, '\\');
    }
}

/// What a filter keeps was there before.
proof fn lemma_filtered(all: Seq<Seq<char>>, keep: spec_fn(Seq<char>) -> bool, i: int)
    requires
        0 <= i < all.filter(keep).len(),
    ensures
        exists|k: int| 0 <= k < all.len() && #[trigger] all[k] == all.filter(keep)[i],
    decreases all.len(),
{
    reveal(Seq::filter);
    let before = all.drop_last();
    if i < before.filter(keep).len() {
        lemma_filtered(before, keep, i);
        let k = choose|k: int| 0 <= k < before.len() && #[trigger] before[k] == before.filter(keep)[i];
        assert(all[k] == all.filter(keep)[i]);
    } else {
        assert(all[all.len() - 1] == all.filter(keep)[i]);
    }
}

/// A name below a directory is one component more.
proof fn lemma_below(directory: Seq<char>, name: Seq<char>, windows: bool)
    requires
        names_something(name),
        !name.contains('/'),
        windows ==> !name.contains('\\'),
    ensures
        parts_of(below(directory, name, windows), windows) == parts_of(directory, windows).push(
            name,
        ),
{
    reveal_strlit("/");
    reveal_strlit("\\");
    let plain = slashed(directory, windows);
    assert(slashed(name, windows) =~= name) by {
        assert forall|i: int| 0 <= i < name.len() implies slashed(name, windows)[i] == name[i] by {
            assert(name.contains(name[i]));
        }
    }
    assert(directory.len() > 0 ==> separates(directory.last(), windows) == (plain.last() == '/'));
    assert(slashed(below(directory, name, windows), windows) =~= below(plain, name, false));
    lemma_below_plain(plain, name);
}

proof fn lemma_below_plain(directory: Seq<char>, name: Seq<char>)
    requires
        names_something(name),
        !name.contains('/'),
    ensures
        components(below(directory, name, false)) == components(directory).push(name),
{
    let keep = |part: Seq<char>| names_something(part);
    let ends = directory.len() > 0 && directory.last() == '/';
    let front = if ends {
        directory.drop_last()
    } else {
        directory
    };
    reveal_strlit("/");
    assert("/"@ =~= seq!['/']);
    let all = split::parts(front, '/');
    split::lemma_parts_pushed(front, '/', name, 0);
    assert(below(directory, name, false) =~= front + seq!['/'] + name);
    assert(all.push(name) =~= all + seq![name]);
    Seq::filter_distributes_over_add(all, seq![name], keep);
    assert(seq![name].filter(keep) =~= seq![name]) by {
        reveal_with_fuel(Seq::filter, 2);
        assert(seq![name].drop_last() =~= seq![]);
    }
    assert(components(below(directory, name, false)) =~= all.filter(keep).push(name));
    if ends {
        let none: Seq<char> = seq![];
        split::lemma_parts_pushed(front, '/', none, 0);
        assert(directory =~= front + seq!['/'] + none);
        assert(all.push(none) =~= all + seq![none]);
        Seq::filter_distributes_over_add(all, seq![none], keep);
        assert(seq![none].filter(keep) =~= seq![]) by {
            reveal_with_fuel(Seq::filter, 2);
            assert(seq![none].drop_last() =~= seq![]);
        }
        assert(components(directory) =~= all.filter(keep));
    }
}

/// What is read or written lies inside the project, and was named by a relative path. A project is
/// at an absolute path.
pub proof fn law_paths_stay_inside(
    root: Seq<char>,
    reference: Seq<char>,
    found: Found,
    is_dir: bool,
)
    requires
        absolute(root, windows(root)),
    ensures
        resolved(root, reference, found) matches Ok(path) ==> within(root, path) && !absolute(
            reference,
            windows(root),
        ) && found == Ok::<Seq<char>, Seq<char>>(path),
        write_path(root, reference, found, is_dir) matches Ok(path) ==> within(root, path)
            && !absolute(reference, windows(root)) && is_dir && within(root, found->Ok_0)
            && parts_of(path, windows(root)) == parts_of(found->Ok_0, windows(root)).push(
            joined_parts(root, reference).last(),
        ),
{
    if let Ok(path) = write_path(root, reference, found, is_dir) {
        let win = windows(root);
        let parent = found->Ok_0;
        let name = joined_parts(root, reference).last();
        let behind = parts_of(reference, win);
        let front = parts_of(root, win);
        if behind.len() > 0 {
            lemma_component(reference, win, behind.len() - 1);
        } else {
            lemma_component(root, win, front.len() - 1);
        }
        lemma_below(parent, name, win);
        assert(parts_of(path, win).take(front.len() as int) =~= parts_of(parent, win).take(
            front.len() as int,
        ));
        let before = slashed(parent, win);
        let after = slashed(path, win);
        assert forall|i: int| 0 <= i < before.len() implies after[i] == before[i] by {
            assert(path[i] == parent[i]);
        }
    }
}

// ---------------------------------------------------------------------------------------------
// Extensions
// ---------------------------------------------------------------------------------------------

/// The index of the last dot.
pub open spec fn last_dot(name: Seq<char>) -> Option<int>
    decreases name.len(),
{
    if name.len() == 0 {
        None
    } else if name.last() == '.' {
        Some(name.len() - 1)
    } else {
        last_dot(name.drop_last())
    }
}

/// The extension of a path: what stands behind the last dot of its last component, unless the
/// component has no other dot and begins with it.
pub open spec fn extension(path: Seq<char>) -> Option<Seq<char>> {
    let parts = components(path);
    if parts.len() == 0 || parts.last() == ".."@ {
        None
    } else {
        match last_dot(parts.last()) {
            None => None,
            Some(i) => if i == 0 {
                None
            } else {
                Some(parts.last().skip(i + 1))
            },
        }
    }
}

proof fn lemma_last_dot(name: Seq<char>, n: int)
    requires
        0 <= n <= name.len(),
        forall|i: int| n <= i < name.len() ==> name[i] != '.',
    ensures
        last_dot(name) == last_dot(name.take(n)),
    decreases name.len(),
{
    if n == name.len() {
        assert(name.take(n) =~= name);
    } else {
        assert(name.drop_last().take(n) =~= name.take(n));
        lemma_last_dot(name.drop_last(), n);
    }
}

/// The extension of a path.
pub fn extension_of(path: &str) -> (r: Option<String>)
    ensures
        text::opt_view(r) == extension(path@),
{
    let parts = components_of(path);
    if parts.len() == 0 {
        return None;
    }
    let name = &parts[parts.len() - 1];
    assert(name@ == components(path@).last());
    if same(name.as_str(), "..") {
        return None;
    }
    let chars = chars_of(name.as_str());
    let mut i: usize = chars.len();
    while i > 0
        invariant
            i <= chars.len(),
            chars@ == components(path@).last(),
            components(path@).len() > 0,
            components(path@).last() != ".."@,
            forall|j: int| i <= j < chars@.len() ==> chars@[j] != '.',
        decreases i,
    {
        if chars[i - 1] == '.' {
            proof {
                lemma_last_dot(chars@, i as int);
                assert(chars@.take(i as int).last() == '.');
            }
            if i == 1 {
                return None;
            }
            let tail = slice_text(&chars, i, chars.len());
            assert(tail@ =~= chars@.skip(i as int));
            return Some(tail);
        }
        i -= 1;
    }
    proof {
        lemma_last_dot(chars@, 0);
    }
    None
}

// ---------------------------------------------------------------------------------------------
// What lies inside
// ---------------------------------------------------------------------------------------------

/// A name that can stand for a file in a directory.
pub open spec fn plain_name(name: Seq<char>) -> bool {
    &&& name.len() > 0
    &&& !name.contains('/')
    &&& name != "."@
    &&& name != ".."@
}

proof fn lemma_alone(name: Seq<char>)
    requires
        plain_name(name),
    ensures
        components(name) == seq![name],
{
    let keep = |part: Seq<char>| names_something(part);
    scan::lemma_char_at(name, '/', 0);
    assert(name.skip(0) =~= name);
    if let Some(i) = scan::char_at(name, '/', 0) {
        assert(name.contains(name[i]));
    }
    assert(split::parts(name, '/') =~= seq![name]);
    reveal(Seq::filter);
    assert(seq![name].drop_last() =~= seq![]);
    assert(seq![name].drop_last().filter(keep) =~= seq![]);
    assert(keep(seq![name].last()));
    assert(seq![name].filter(keep) =~= seq![name]);
}

/// What is inside the project is reached: a relative path is taken to the place where it leads, and a
/// new file goes into the directory that was found, under the name that was asked for.
pub proof fn law_paths_inside_are_reached(
    root: Seq<char>,
    reference: Seq<char>,
    name: Seq<char>,
    place: Seq<char>,
)
    requires
        root.len() > 0,
        root[0] == '/',
        plain_name(name),
        within(root, place),
        reference.len() > 0 ==> reference[0] != '/',
    ensures
        resolved(root, reference, Ok(place)) == Ok::<Seq<char>, PathError<Seq<char>>>(place),
        write_path(root, name, Ok(place), true) matches Ok(path) && place.is_prefix_of(path)
            && name.is_suffix_of(path) && components(path) == components(place).push(name)
            && path.len() <= place.len() + 1 + name.len(),
{
    reveal_strlit("/");
    assert(!windows(root));
    assert(slashed(reference, false) =~= reference);
    assert(slashed(name, false) =~= name);
    assert(slashed(root, false) =~= root);
    assert(slashed(place, false) =~= place);
    lemma_alone(name);
    assert(name.contains(name[0]));
    let all = joined_parts(root, name);
    assert(all.last() == name) by {
        assert(parts_of(name, false) == seq![name]);
    }
    let path = below(place, name, false);
    lemma_below(place, name, false);
    assert(slashed(path, false) =~= path);
    assert(path =~= place + name || path =~= place + seq!['/'] + name);
    assert(name =~= path.skip(path.len() - name.len()));
}

/// What stands beside a directory is not inside it, however much their names have in common; what
/// stands in it is.
pub proof fn law_beside_is_not_inside(directory: Seq<char>, name: Seq<char>, other: Seq<char>)
    requires
        directory.len() > 0,
        directory[0] == '/',
        plain_name(name),
        plain_name(other),
        name != other,
    ensures
        within(directory, below(directory, name, false)),
        !within(below(directory, name, false), below(directory, other, false)),
        !within(below(directory, name, false), directory),
{
    let first = below(directory, name, false);
    let second = below(directory, other, false);
    lemma_below(directory, name, false);
    lemma_below(directory, other, false);
    assert(first[0] == '/' && second[0] == '/');
    assert(!windows(directory) && !windows(first));
    assert(parts_of(first, false).take(parts_of(directory, false).len() as int) =~= parts_of(
        directory,
        false,
    ));
    assert(slashed(directory, false)[0] == '/' && slashed(first, false)[0] == '/');
    let n = parts_of(directory, false).len() as int;
    assert(parts_of(second, false).take(n + 1)[n] == other);
    assert(parts_of(first, false)[n] == name);
}

proof fn lemma_only_dot(s: Seq<char>, k: int)
    requires
        0 <= k < s.len(),
        s[k] == '.',
        forall|i: int| k < i < s.len() ==> #[trigger] s[i] != '.',
    ensures
        last_dot(s) == Some(k),
    decreases s.len(),
{
    if s.last() != '.' {
        lemma_only_dot(s.drop_last(), k);
    }
}

/// The extension of a file is what stands behind the last dot of its name, as it is written.
pub proof fn law_extensions_stand_behind_the_dot(name: Seq<char>, ending: Seq<char>)
    requires
        name.len() > 0,
        name[0] != '.',
        !name.contains('/'),
        !ending.contains('/'),
        !ending.contains('.'),
    ensures
        extension(name.push('.') + ending) == Some(ending),
{
    reveal_strlit(".");
    reveal_strlit("..");
    let file = name.push('.') + ending;
    let k = name.len() as int;
    assert(file[0] == name[0]);
    assert("."@[0] == '.' && ".."@[0] == '.');
    if file.contains('/') {
        let i = file.index_of('/');
        if i < k {
            assert(name.contains(name[i]));
        } else if i > k {
            assert(ending.contains(ending[i - k - 1]));
        }
    }
    lemma_alone(file);
    assert(file[k] == '.');
    assert forall|i: int| k < i < file.len() implies #[trigger] file[i] != '.' by {
        assert(ending.contains(ending[i - k - 1]));
    }
    lemma_only_dot(file, k);
    assert(components(file).last() == file);
    assert(file.skip(k + 1) =~= ending);
}

/// Why a path was refused names the path, and the root and the cause where they matter.
#[verifier::rlimit(50)]
pub proof fn law_path_errors_name_the_path(reference: Seq<char>, root: Seq<char>, cause: Seq<char>)
    ensures
        text::stands_in((PathError::Absolute { reference }).words(), reference),
        text::stands_in((PathError::Outside { reference }).words(), reference),
        text::stands_in((PathError::NoParent { reference }).words(), reference),
        text::stands_in((PathError::NoName { reference }).words(), reference),
        text::stands_in((PathError::NotFound { reference, root, cause }).words(), reference),
        text::stands_in((PathError::NotFound { reference, root, cause }).words(), root),
        text::stands_in((PathError::NotFound { reference, root, cause }).words(), cause),
        text::stands_in((PathError::ParentNotFound { reference, root, cause }).words(), reference),
        text::stands_in((PathError::ParentNotFound { reference, root, cause }).words(), root),
        text::stands_in((PathError::ParentNotFound { reference, root, cause }).words(), cause),
{
    broadcast use text::group_stands;

}

} // verus!
