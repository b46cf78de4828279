//! Running the tools that change something: what a command is turned into and how its output is
//! told, and what a patch writes.
use crate::bytes;
use crate::bytes::cap;
use crate::context;
use crate::context::{read_project_file, FileFacts};
use crate::number;
use crate::number::{count, number as decimal_text, signed_number};
use crate::patch;
use crate::patch::apply_patch;
use crate::path;
use crate::path::resolve_for_write;
use crate::scan;
use crate::scan::{is_blank, trim, trim_end, Class};
use crate::split;
use crate::split::split_words;
use crate::text;
use crate::text::{cat, cat3, cat5, chars_of, same};
use crate::tools::{PatchArguments, PatchModel, ToolError, MAX_COMMAND_OUTPUT};
use vstd::prelude::*;
use vstd::string::*;

verus! {

// ---------------------------------------------------------------------------------------------
// Commands
// ---------------------------------------------------------------------------------------------

/// The characters that make more of a command than a program and its arguments.
pub open spec fn shell_operators() -> Seq<char> {
    seq!['&', '|', ';', '>', '<', '`', '$', '(', '\n']
}

/// A character of the text is one of the listed ones.
pub open spec fn has_any(s: Seq<char>, listed: Seq<char>) -> bool {
    exists|i: int| 0 <= i < s.len() && listed.contains(#[trigger] s[i])
}

/// The command goes through `rtk`: it is there, the command does not name it already, and the
/// command is a simple one, so that the prefix speaks for all of it.
pub open spec fn routed(command: Seq<char>, available: bool) -> bool {
    let inner = scan::trimmed(command);
    &&& available
    &&& split::words(inner).len() == 0 || split::words(inner)[0] != "rtk"@
    &&& !has_any(inner, shell_operators())
}

/// Whether a command goes through `rtk`.
pub fn route_through_rtk(command: &str, rtk_is_available: bool) -> (r: bool)
    ensures
        r == routed(command@, rtk_is_available),
{
    if !rtk_is_available {
        return false;
    }
    let inner = trim(command);
    let words = split_words(inner.as_str());
    if words.len() > 0 && same(words[0].as_str(), "rtk") {
        return false;
    }
    let operators: [char; 9] = ['&', '|', ';', '>', '<', '`', '$', '(', '\n'];
    assert(operators@ =~= shell_operators());
    let class = Class::Of(&operators);
    let chars = chars_of(inner.as_str());
    let mut i: usize = 0;
    while i < chars.len()
        invariant
            i <= chars.len(),
            chars@ == scan::trimmed(command@),
            operators@ == shell_operators(),
            class == Class::Of(&operators),
            forall|j: int| 0 <= j < i ==> !shell_operators().contains(#[trigger] chars@[j]),
        decreases chars.len() - i,
    {
        if class.has(chars[i]) {
            assert(shell_operators().contains(chars@[i as int]));
            return false;
        }
        i += 1;
    }
    true
}

/// The command that is run.
pub open spec fn executed(command: Seq<char>, available: bool) -> Seq<char> {
    if routed(command, available) {
        "rtk "@ + scan::trimmed(command)
    } else {
        command
    }
}

/// The command that is run.
pub fn executed_command(command: &str, rtk_is_available: bool) -> (r: String)
    ensures
        r@ == executed(command@, rtk_is_available),
{
    if route_through_rtk(command, rtk_is_available) {
        let inner = trim(command);
        cat("rtk ", inner.as_str())
    } else {
        command.to_owned()
    }
}

/// What `String::from_utf8_lossy` makes of bytes.
pub uninterp spec fn lossy_text(bytes: Seq<u8>) -> Seq<char>;

/// `String::from_utf8_lossy`: bytes that are well-formed UTF-8 give the text that they encode.
/// What replaces other bytes is left to its name.
#[verifier::external_body]
fn lossy(bytes: &[u8]) -> (r: String)
    ensures
        r@ == lossy_text(bytes@),
        vstd::utf8::valid_utf8(bytes@) ==> r@ == vstd::utf8::decode_utf8(bytes@),
{
    String::from_utf8_lossy(bytes).into_owned()
}

/// A stream of a command's output under its title, where there is any.
pub open spec fn section(title: Seq<char>, output: Seq<char>) -> Seq<char> {
    if scan::blank(output) {
        seq![]
    } else {
        title + scan::trim_back(output, scan::white())
    }
}

/// The exit code of a command; one that a signal ended has none.
pub open spec fn exit_code(code: Option<i32>) -> Seq<char> {
    match code {
        Some(code) => number::signed(code as int),
        None => "unknown (terminated by signal)"@,
    }
}

/// All that a command printed.
pub open spec fn output_body(code: Option<i32>, stdout: Seq<char>, stderr: Seq<char>) -> Seq<char> {
    "exit code: "@ + exit_code(code) + section("\nstdout:\n"@, stdout) + section(
        "\nstderr:\n"@,
        stderr,
    )
}

/// What is told of a command's output, as text.
pub fn tell_output(code: Option<i32>, stdout: &str, stderr: &str) -> (r: String)
    ensures
        bytes::capped(output_body(code, stdout@, stderr@), MAX_COMMAND_OUTPUT as nat, r@),
{
    let shown = match code {
        Some(code) => signed_number(code as i64),
        None => "unknown (terminated by signal)".to_owned(),
    };
    let mut body = cat("exit code: ", shown.as_str());
    let ghost first = body@;
    if !is_blank(stdout) {
        body.append("\nstdout:\n");
        let inner = trim_end(stdout, &Class::White);
        body.append(inner.as_str());
    }
    assert(body@ =~= first + section("\nstdout:\n"@, stdout@));
    let ghost second = body@;
    if !is_blank(stderr) {
        body.append("\nstderr:\n");
        let inner = trim_end(stderr, &Class::White);
        body.append(inner.as_str());
    }
    assert(body@ =~= second + section("\nstderr:\n"@, stderr@));
    cap(body.as_str(), MAX_COMMAND_OUTPUT)
}

/// What is told of a command's output.
pub fn format_command_output(code: Option<i32>, stdout: &[u8], stderr: &[u8]) -> (r: String)
    ensures
        bytes::capped(
            output_body(code, lossy_text(stdout@), lossy_text(stderr@)),
            MAX_COMMAND_OUTPUT as nat,
            r@,
        ),
{
    let out = lossy(stdout);
    let err = lossy(stderr);
    tell_output(code, out.as_str(), err.as_str())
}

/// What is told of a command that ended.
pub fn command_report(executed: &str, output: &str) -> (r: String)
    ensures
        r@ == "command: "@ + executed@ + "\n"@ + output@,
{
    let mut out = cat3("command: ", executed, "\n");
    out.append(output);
    out
}

/// What is told of a command that ran too long.
pub fn timeout_report(secs: u64) -> (r: String)
    ensures
        r@ == "Error: command timed out after "@ + number::decimal(secs as nat)
            + " seconds and was terminated"@,
{
    let shown = decimal_text(secs);
    cat3("Error: command timed out after ", shown.as_str(), " seconds and was terminated")
}

// ---------------------------------------------------------------------------------------------
// Patches
// ---------------------------------------------------------------------------------------------

/// What a patch writes where, and what is then told.
#[derive(Debug)]
pub struct PatchPlan {
    pub target: String,
    pub content: String,
    pub message: String,
}

/// What a [`PatchPlan`] stands for.
#[verifier::ext_equal]
pub struct PlanModel {
    pub target: Seq<char>,
    pub content: Seq<char>,
    pub message: Seq<char>,
}

impl View for PatchPlan {
    type V = PlanModel;

    open spec fn view(&self) -> PlanModel {
        PlanModel { target: self.target@, content: self.content@, message: self.message@ }
    }
}

/// What a patch writes. `found` is the absolute path of the target's directory, or why there is
/// none, `exists` whether the target is there, and `facts` what was found out about it.
pub open spec fn planned(
    root: Seq<char>,
    args: PatchModel,
    found: path::Found,
    is_dir: bool,
    exists: bool,
    facts: FileFacts,
) -> Result<PlanModel, ToolError<Seq<char>>> {
    match path::write_path(root, args.path, found, is_dir) {
        Err(e) => Err(ToolError::Path(e)),
        Ok(target) => if args.old_text.len() == 0 {
            if exists {
                Err(ToolError::Exists { path: args.path })
            } else {
                Ok(
                    PlanModel {
                        target,
                        content: args.new_text,
                        message: "created "@ + args.path + " ("@ + number::decimal(
                            context::bytes(args.new_text) as nat,
                        ) + " bytes)"@,
                    },
                )
            }
        } else {
            match context::file_in(root, args.path, facts) {
                Err(e) => Err(ToolError::Context(e)),
                Ok(current) => match patch::patched(
                    args.path,
                    current,
                    args.old_text,
                    args.new_text,
                ) {
                    Err(e) => Err(ToolError::Patch(e)),
                    Ok(content) => Ok(
                        PlanModel { target, content, message: "patched "@ + args.path },
                    ),
                },
            }
        },
    }
}

/// Decide what a patch writes.
pub fn plan_patch(
    root: &str,
    args: &PatchArguments,
    found: Result<String, String>,
    is_dir: bool,
    exists: bool,
    facts: FileFacts,
) -> (r: Result<PatchPlan, ToolError<String>>)
    ensures
        text::res_view(r) == planned(
            root@,
            args@,
            text::res_view(found),
            is_dir,
            exists,
            facts,
        ),
{
    let target = match resolve_for_write(root, args.path.as_str(), found, is_dir) {
        Ok(target) => target,
        Err(e) => {
            return Err(ToolError::Path(e));
        },
    };
    if args.old_text.as_str().is_empty() {
        if exists {
            return Err(ToolError::Exists { path: args.path.clone() });
        }
        let digits = count(args.new_text.as_str().len());
        let message = cat5("created ", args.path.as_str(), " (", digits.as_str(), " bytes)");
        return Ok(PatchPlan { target, content: args.new_text.clone(), message });
    }
    let current = match read_project_file(root, args.path.as_str(), facts) {
        Ok(current) => current,
        Err(e) => {
            return Err(ToolError::Context(e));
        },
    };
    match apply_patch(
        args.path.as_str(),
        current.as_str(),
        args.old_text.as_str(),
        args.new_text.as_str(),
    ) {
        Ok(content) => Ok(
            PatchPlan { target, content, message: cat("patched ", args.path.as_str()) },
        ),
        Err(e) => Err(ToolError::Patch(e)),
    }
}

/// A patch writes inside the project, and never over a file that it did not name as there. A
/// project is at an absolute path.
pub proof fn law_patches_stay_inside(
    root: Seq<char>,
    args: PatchModel,
    found: path::Found,
    is_dir: bool,
    exists: bool,
    facts: FileFacts,
)
    requires
        path::absolute(root, path::windows(root)),
        planned(root, args, found, is_dir, exists, facts) is Ok,
    ensures
        path::within(root, planned(root, args, found, is_dir, exists, facts)->Ok_0.target),
        args.old_text.len() == 0 ==> !exists,
{
    path::law_paths_stay_inside(root, args.path, found, is_dir);
}

/// A text up to its last character that is not white space.
pub open spec fn ends_at(s: Seq<char>, n: int) -> bool {
    &&& 1 <= n <= s.len()
    &&& !text::is_white(s[n - 1])
    &&& forall|i: int| n <= i < s.len() ==> text::is_white(#[trigger] s[i])
}

/// A text is nothing but white space.
pub open spec fn all_white(s: Seq<char>) -> bool {
    forall|i: int| 0 <= i < s.len() ==> text::is_white(#[trigger] s[i])
}

proof fn lemma_ends_at(s: Seq<char>, n: int)
    requires
        ends_at(s, n),
    ensures
        !scan::blank(s),
        scan::trim_back(s, scan::white()) == s.take(n),
{
    scan::lemma_span_back_unique(s, scan::white(), (s.len() - n) as nat);
    scan::lemma_span_bound(s, scan::white());
    let from = scan::span(s, scan::white()) as int;
    if from >= n {
        assert((scan::white())(s[n - 1]));
    }
    let rest = s.skip(from);
    scan::lemma_span_back_bound(rest, scan::white());
    let back = scan::span_back(rest, scan::white());
    if back >= rest.len() {
        assert((scan::white())(rest[n - 1 - from]));
    }
}

proof fn lemma_all_white(s: Seq<char>)
    requires
        all_white(s),
    ensures
        scan::blank(s),
{
    scan::lemma_span_unique(s, scan::white(), s.len());
    assert(s.skip(s.len() as int) =~= seq![]);
}

/// A command's output tells how it ended and all that it printed, up to the white space at the end
/// of each stream. Each stream is told whether the other printed anything or not, and what went to
/// standard output comes first.
pub proof fn law_output_tells_both_streams(
    code: Option<i32>,
    stdout: Seq<char>,
    stderr: Seq<char>,
    told: Seq<char>,
    out_end: int,
    err_end: int,
)
    requires
        bytes::capped(output_body(code, stdout, stderr), MAX_COMMAND_OUTPUT as nat, told),
        bytes::size(output_body(code, stdout, stderr)) <= MAX_COMMAND_OUTPUT,
        ends_at(stdout, out_end) || (all_white(stdout) && out_end == 0),
        ends_at(stderr, err_end) || (all_white(stderr) && err_end == 0),
    ensures
        text::stands_in(told, stdout.take(out_end)),
        text::stands_in(told, stderr.take(err_end)),
        code matches Some(n) ==> text::stands_in(told, number::signed(n as int)),
        out_end > 0 && err_end > 0 ==> exists|head: Seq<char>| told == #[trigger] (head
            + "\nstdout:\n"@) + stdout.take(out_end) + "\nstderr:\n"@ + stderr.take(err_end),
        out_end > 0 && err_end == 0 ==> exists|head: Seq<char>| told == #[trigger] (head
            + "\nstdout:\n"@) + stdout.take(out_end),
        out_end == 0 && err_end > 0 ==> exists|head: Seq<char>| told == #[trigger] (head
            + "\nstderr:\n"@) + stderr.take(err_end),
{
    if out_end > 0 {
        lemma_ends_at(stdout, out_end);
    } else {
        lemma_all_white(stdout);
    }
    if err_end > 0 {
        lemma_ends_at(stderr, err_end);
    } else {
        lemma_all_white(stderr);
    }
    assert(told == output_body(code, stdout, stderr));
    let nothing = Seq::<char>::empty();
    let first = "exit code: "@;
    let shown = exit_code(code);
    let head = first + shown;
    let out = section("\nstdout:\n"@, stdout);
    let err = section("\nstderr:\n"@, stderr);
    text::lemma_stands_between(first, shown, out + err);
    assert(first + shown + (out + err) =~= told);
    let a = stdout.take(out_end);
    let b = stderr.take(err_end);
    if out_end > 0 {
        assert(out =~= "\nstdout:\n"@ + a);
        text::lemma_stands_between(head + "\nstdout:\n"@, a, err);
        assert(head + "\nstdout:\n"@ + a + err =~= told);
    } else {
        text::lemma_stands_between(told, a, nothing);
        assert(told + a + nothing =~= told);
    }
    if err_end > 0 {
        assert(err =~= "\nstderr:\n"@ + b);
        text::lemma_stands_between(head + out + "\nstderr:\n"@, b, nothing);
        assert(head + out + "\nstderr:\n"@ + b + nothing =~= told);
    } else {
        text::lemma_stands_between(told, b, nothing);
        assert(told + b + nothing =~= told);
    }
    if out_end > 0 && err_end > 0 {
        assert(told =~= (head + "\nstdout:\n"@) + a + "\nstderr:\n"@ + b);
    } else if out_end > 0 {
        assert(told =~= (head + "\nstdout:\n"@) + a);
    } else if err_end > 0 {
        assert(told =~= (head + "\nstderr:\n"@) + b);
    }
}

/// A command is run as it was given, or with one word put before it: only where that program is
/// there, the command does not name it already, and no character of it means something to a shell.
pub proof fn law_commands_keep_their_words(command: Seq<char>, available: bool)
    ensures
        ({
            let inner = scan::trimmed(command);
            let words = split::words(inner);
            let special = exists|i: int|
                0 <= i < inner.len() && (#[trigger] inner[i] == '&' || inner[i] == '|' || inner[i]
                    == ';' || inner[i] == '>' || inner[i] == '<' || inner[i] == '`' || inner[i]
                    == '$' || inner[i] == '(' || inner[i] == '\n');
            let named = words.len() > 0 && words[0] == "rtk"@;
            &&& !available || special || named ==> executed(command, available) == command
            &&& available && !special && !named ==> executed(command, available).skip(4) == inner
                && executed(command, available).take(4) == "rtk "@
        }),
{
    reveal_strlit("rtk ");
    let inner = scan::trimmed(command);
    let listed = shell_operators();
    let special = exists|i: int|
        0 <= i < inner.len() && (#[trigger] inner[i] == '&' || inner[i] == '|' || inner[i] == ';'
            || inner[i] == '>' || inner[i] == '<' || inner[i] == '`' || inner[i] == '$' || inner[i]
            == '(' || inner[i] == '\n');
    assert forall|c: char| #[trigger] listed.contains(c) <==> (c == '&' || c == '|' || c == ';' || c
        == '>' || c == '<' || c == '`' || c == '$' || c == '(' || c == '\n') by {
        assert(listed[0] == '&' && listed[1] == '|' && listed[2] == ';' && listed[3] == '>'
            && listed[4] == '<' && listed[5] == '`' && listed[6] == '$' && listed[7] == '('
            && listed[8] == '\n');
    }
    if special {
        let i = choose|i: int|
            0 <= i < inner.len() && (#[trigger] inner[i] == '&' || inner[i] == '|' || inner[i]
                == ';' || inner[i] == '>' || inner[i] == '<' || inner[i] == '`' || inner[i] == '$'
                || inner[i] == '(' || inner[i] == '\n');
        assert(listed.contains(inner[i]));
    } else if has_any(inner, listed) {
        let i = choose|i: int| 0 <= i < inner.len() && listed.contains(#[trigger] inner[i]);
        assert(listed.contains(inner[i]));
    }
    if executed(command, available) != command {
        assert(("rtk "@ + inner).skip(4) =~= inner);
        assert(("rtk "@ + inner).take(4) =~= "rtk "@);
    }
    assert(("rtk "@ + inner).skip(4) =~= inner);
    assert(("rtk "@ + inner).take(4) =~= "rtk "@);
}

/// What a patch writes: into a new file all of the new text as it is, and only where there is none
/// yet; into an existing one what it held, with the one stretch replaced. The message names the file.
pub proof fn law_patches_write_what_was_asked(
    root: Seq<char>,
    args: PatchModel,
    found: path::Found,
    is_dir: bool,
    exists: bool,
    facts: FileFacts,
)
    ensures
        args.old_text.len() == 0 && exists ==> planned(
            root,
            args,
            found,
            is_dir,
            exists,
            facts,
        ) is Err,
        args.old_text.len() == 0 && !exists && path::write_path(
            root,
            args.path,
            found,
            is_dir,
        ) is Ok ==> (planned(root, args, found, is_dir, exists, facts) matches Ok(plan)
            && plan.content == args.new_text && text::stands_in(plan.message, args.path)
            && path::write_path(root, args.path, found, is_dir) == Ok::<
            Seq<char>,
            path::PathError<Seq<char>>,
        >(plan.target)),
        args.old_text.len() > 0 ==> (planned(root, args, found, is_dir, exists, facts) matches Ok(
            plan,
        ) ==> (facts.content matches Ok(current) && patch::patched(
            args.path,
            current@,
            args.old_text,
            args.new_text,
        ) == Ok::<Seq<char>, patch::PatchError<Seq<char>>>(plan.content) && text::stands_in(
            plan.message,
            args.path,
        ) && path::write_path(root, args.path, found, is_dir) == Ok::<
            Seq<char>,
            path::PathError<Seq<char>>,
        >(plan.target))),
{
    let none: Seq<char> = seq![];
    if let Ok(plan) = planned(root, args, found, is_dir, exists, facts) {
        if args.old_text.len() == 0 {
            let rest = " ("@ + number::decimal(context::bytes(args.new_text) as nat) + " bytes)"@;
            text::lemma_stands_between("created "@, args.path, rest);
            assert(plan.message =~= "created "@ + args.path + rest);
        } else {
            text::lemma_stands_between("patched "@, args.path, none);
            assert(plan.message =~= "patched "@ + args.path + none);
            context::law_files_are_read_whole(root, args.path, facts);
        }
    }
}

} // verus!
