//! The system prompt that goes along with every request.
use vstd::prelude::*;
use vstd::string::*;

verus! {

/// Who the assistant is and how it answers.
pub const BASE: &'static str = "You are Kamui, an AI coding assistant working in a terminal inside the user's project repository. The working directory is the project root.\n\nBe concise and direct. Base your answers on the actual code, not assumptions, and keep responses short unless the user asks for detail. Match the existing conventions of the codebase. If you are unsure, say so rather than inventing details.";

/// How the assistant works with tools.
pub const TOOLS: &'static str = "You can call tools to work in the repository:\n- list_directory: see what a folder contains.\n- read_file: read a file's contents.\n- run_command: run a shell command (the user must approve it before it runs).\n- patch_file: create or edit one file by exact-text replacement (the user must approve it).\n\nUse tools to gather real information instead of guessing. Read a file before you answer questions about it or edit it. To change code, read the target first, then call patch_file with an old_text that occurs exactly once; prefer the smallest correct change and keep the surrounding style. Use run_command for builds, tests, and searches. Never claim you read, ran, or edited something unless you actually called the matching tool. If a tool returns an error, read it and adjust instead of repeating the same call.";

/// The system prompt: the base, the guidance on tools where there are any, and the instructions
/// of the project where there are any.
pub open spec fn built(tools_enabled: bool, instructions: Option<Seq<char>>) -> Seq<char> {
    let with_tools = if tools_enabled {
        BASE@ + "\n\n"@ + TOOLS@
    } else {
        BASE@
    };
    match instructions {
        Some(text) => with_tools + "\n\n"@ + text,
        None => with_tools,
    }
}

/// Build the system prompt.
pub fn build(tools_enabled: bool, project_instructions: Option<&str>) -> (r: String)
    ensures
        r@ == built(
            tools_enabled,
            match project_instructions {
                Some(text) => Some(text@),
                None => None,
            },
        ),
{
    let mut prompt = BASE.to_owned();
    if tools_enabled {
        prompt.append("\n\n");
        prompt.append(TOOLS);
    }
    if let Some(instructions) = project_instructions {
        prompt.append("\n\n");
        prompt.append(instructions);
    }
    prompt
}

/// The system prompt begins the same whatever else it says, speaks of tools exactly where there are
/// any, and ends with the project's instructions, whole.
pub proof fn law_prompts_end_with_the_instructions(instructions: Seq<char>)
    ensures
        built(false, None) == BASE@,
        BASE@.is_prefix_of(built(true, Some(instructions))),
        BASE@.is_prefix_of(built(false, Some(instructions))),
        built(true, None).is_prefix_of(built(true, Some(instructions))),
        instructions.is_suffix_of(built(true, Some(instructions))),
        instructions.is_suffix_of(built(false, Some(instructions))),
        TOOLS@.is_suffix_of(built(true, None)),
        built(true, None).len() == BASE@.len() + "\n\n"@.len() + TOOLS@.len(),
        built(false, Some(instructions)).len() == BASE@.len() + "\n\n"@.len() + instructions.len(),
{
    let with_tools = built(true, Some(instructions));
    let without = built(false, Some(instructions));
    let bare = built(true, None);
    assert(instructions =~= with_tools.skip(with_tools.len() - instructions.len()));
    assert(instructions =~= without.skip(without.len() - instructions.len()));
    assert(TOOLS@ =~= bare.skip(bare.len() - TOOLS@.len()));
    assert(BASE@ =~= with_tools.take(BASE@.len() as int));
    assert(BASE@ =~= without.take(BASE@.len() as int));
    assert(bare =~= with_tools.take(bare.len() as int));
}

} // verus!
