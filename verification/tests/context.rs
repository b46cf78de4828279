use base64::Engine;
use kamui::context::{
    budget_left, clipboard_text, counts_fit, diff_text, encode_png, file_references,
    image_media_type, list_project_directory,
    read_project_directory, read_project_file, read_project_image, source_of, ContextError,
    Directory, DirectoryFile, Entry, Expanded, Expansion, Fetched, FileFacts, ImageFacts,
    ImageKind, InstructionFacts, ProjectContext, Source, MAX_CONTEXT_BYTES, MAX_IMAGE_BYTES,
};
use kamui::mcp::render_result;
use kamui::path::{
    components_of, extension_of, is_absolute, is_windows, is_within, resolve_for_write,
    resolve_within_root,
};
use kamui::prompt::build;
use serde_json::Value;

const ROOT: &str = "/tmp/project";

fn instructions(name: &str, content: &str) -> InstructionFacts {
    InstructionFacts {
        name: name.to_string(),
        path: format!("{ROOT}/{name}"),
        size: Ok(content.len() as u64),
        content: Ok(content.to_string()),
    }
}

fn project(present: Vec<InstructionFacts>) -> ProjectContext {
    ProjectContext::from_root(ROOT.to_string(), present).unwrap()
}

fn file(path: &str, content: &str) -> FileFacts {
    FileFacts {
        found: Ok(format!("{ROOT}/{path}")),
        is_file: true,
        size: Ok(content.len() as u64),
        content: Ok(content.to_string()),
    }
}

/// Expand the references of an input, each fetched by the given function.
fn expand(
    context: &ProjectContext,
    input: &str,
    fetch: impl Fn(&str) -> Result<Fetched, ContextError<String>>,
) -> Result<Expanded, ContextError<String>> {
    let outcomes = file_references(input).iter().map(|name| fetch(name)).collect();
    context.expand_file_references(input, outcomes)
}

#[test]
fn loads_kamui_instructions_before_agents() {
    let context = project(vec![
        instructions("KAMUI.md", "Use Rust."),
        instructions("AGENTS.md", "Use Go."),
    ]);

    assert_eq!(context.instruction_name(), Some("KAMUI.md"));
    assert!(context.system_message().unwrap().contains("Use Rust."));
}

#[test]
fn expands_each_file_reference_once() {
    let context = project(Vec::new());

    let prompt = expand(&context, "Explain @src/main.rs and @src/main.rs", |name| {
        read_project_file(ROOT, name, file(name, "fn main() {}")).map(Fetched::Text)
    })
    .unwrap();

    assert_eq!(prompt.text.matches("<context source=").count(), 1);
    assert!(prompt.text.contains("fn main() {}"));
}

#[test]
fn expands_staged_git_diff() {
    let context = project(Vec::new());
    assert_eq!(source_of("staged"), Source::Staged);

    let prompt = expand(&context, "Review @staged", |_| {
        Ok(Fetched::Text(diff_text("+hello\n".to_string())))
    })
    .unwrap();

    assert!(prompt.text.contains("<context source=\"git diff --staged\">"));
    assert!(prompt.text.contains("+hello"));
    assert_eq!(diff_text(String::new()), "(no changes)");
}

#[test]
fn leaves_prompts_without_references_unchanged() {
    let context = project(Vec::new());

    assert_eq!(expand(&context, "hello", |_| Err(ContextError::TooMuch)).unwrap().text, "hello");
}

#[test]
fn rejects_absolute_paths() {
    let context = project(Vec::new());
    let prompt = format!("Read @{ROOT}/main.rs");

    let error = expand(&context, &prompt, |name| {
        read_project_file(ROOT, name, file("main.rs", "")).map(Fetched::Text)
    })
    .unwrap_err();
    assert!(error.message().contains("relative"));
}

fn directory_file(label: &str, content: Option<&str>) -> DirectoryFile {
    DirectoryFile { label: label.to_string(), content: content.map(str::to_string) }
}

#[test]
fn attaches_a_directory_and_leaves_out_what_is_no_text() {
    let context = project(Vec::new());

    let expanded = expand(&context, "Review @src", |name| {
        let files = vec![
            directory_file("src/keep.rs", Some("fn keep() {}")),
            directory_file("src/logo.bin", None),
        ];
        read_project_directory(name, MAX_CONTEXT_BYTES, files).map(Fetched::Directory)
    })
    .unwrap();

    assert!(expanded.text.contains("fn keep() {}"));
    assert!(!expanded.text.contains("logo.bin"));
    assert_eq!(expanded.attached_files, 1);
    let error = read_project_directory("src", 10, Vec::new()).unwrap_err();
    assert_eq!(error.message(), "no attachable text files found in src");
}

#[test]
fn rejects_missing_files() {
    let context = project(Vec::new());

    let missing = |name: &str| {
        let facts = FileFacts {
            found: Err("No such file or directory (os error 2)".to_string()),
            is_file: false,
            size: Ok(0),
            content: Ok(String::new()),
        };
        read_project_file(ROOT, name, facts).map(Fetched::Text)
    };
    let error = expand(&context, "Read @nope.rs", missing).unwrap_err();
    assert_eq!(
        error.message(),
        format!(
            "could not access nope.rs relative to {ROOT}: No such file or directory (os error 2)"
        )
    );
}

#[test]
fn rejects_files_over_the_size_limit() {
    let context = project(Vec::new());
    let content = "a".repeat(65 * 1024);

    let error = expand(&context, "Read @big.txt", |name| {
        read_project_file(ROOT, name, file(name, &content)).map(Fetched::Text)
    })
    .unwrap_err();
    assert!(error.message().contains("64 KiB"));
}

#[test]
fn expands_unstaged_git_diff() {
    let context = project(Vec::new());
    assert_eq!(source_of("diff"), Source::Diff);

    let prompt = expand(&context, "Review @diff", |_| {
        Ok(Fetched::Text(diff_text(" hello\n+world\n".to_string())))
    })
    .unwrap();

    assert!(prompt.text.contains("<context source=\"git diff\">"));
    assert!(prompt.text.contains("+world"));
}

#[test]
fn falls_back_to_agents_when_kamui_absent() {
    let context = project(vec![instructions("AGENTS.md", "Use Go.")]);

    assert_eq!(context.instruction_name(), Some("AGENTS.md"));
    assert_eq!(context.root(), ROOT);
}

#[test]
fn reports_no_instructions_when_none_present() {
    let context = project(Vec::new());

    assert_eq!(context.instruction_name(), None);
    assert!(context.system_message().is_none());
}

#[test]
fn instructions_must_be_small_texts() {
    let mut big = instructions("KAMUI.md", "x");
    big.size = Ok(65 * 1024);
    let error = ProjectContext::from_root(ROOT.to_string(), vec![big]).unwrap_err();
    assert_eq!(error.message(), format!("{ROOT}/KAMUI.md exceeds the 64 KiB file limit"));
    let mut binary = instructions("KAMUI.md", "x");
    binary.content = Err("stream did not contain valid UTF-8".to_string());
    let error = ProjectContext::from_root(ROOT.to_string(), vec![binary]).unwrap_err();
    assert_eq!(
        error.message(),
        format!(
            "{ROOT}/KAMUI.md is not a readable UTF-8 text file: stream did not contain valid UTF-8"
        )
    );
    let mut gone = instructions("KAMUI.md", "x");
    gone.size = Err("Permission denied (os error 13)".to_string());
    let error = ProjectContext::from_root(ROOT.to_string(), vec![gone]).unwrap_err();
    assert_eq!(
        error.message(),
        format!("failed to inspect {ROOT}/KAMUI.md: Permission denied (os error 13)")
    );
}

#[test]
fn unreadable_files_say_why() {
    let denied = || Err("Permission denied (os error 13)".to_string());
    let locked = FileFacts { content: denied(), ..file("a.rs", "x") };
    assert_eq!(
        read_project_file(ROOT, "a.rs", locked).unwrap_err().message(),
        format!("{ROOT}/a.rs is not a readable UTF-8 text file: Permission denied (os error 13)")
    );
    let hidden = FileFacts { size: Err("gone".to_string()), ..file("a.rs", "x") };
    assert_eq!(
        read_project_file(ROOT, "a.rs", hidden).unwrap_err().message(),
        format!("failed to inspect {ROOT}/a.rs: gone")
    );
    let image = |size, data| ImageFacts {
        found: Ok(format!("{ROOT}/a.png")),
        is_file: true,
        size,
        data,
    };
    let unread = image(Ok(3), Err("Permission denied (os error 13)".to_string()));
    assert_eq!(
        read_project_image(ROOT, "a.png", ImageKind::Png, unread).unwrap_err().message(),
        format!("failed to read {ROOT}/a.png: Permission denied (os error 13)")
    );
    let unseen = image(Err("gone".to_string()), Ok(Vec::new()));
    assert_eq!(
        read_project_image(ROOT, "a.png", ImageKind::Png, unseen).unwrap_err().message(),
        format!("failed to inspect {ROOT}/a.png: gone")
    );
    let large = image(Ok(MAX_IMAGE_BYTES + 1), Ok(Vec::new()));
    assert_eq!(
        read_project_image(ROOT, "a.png", ImageKind::Png, large).unwrap_err().message(),
        "a.png exceeds the 5 MiB image limit"
    );
}

#[test]
fn attaches_an_image_reference_as_an_attachment() {
    let context = project(Vec::new());
    assert_eq!(source_of("shot.png"), Source::Image(ImageKind::Png));

    let expanded = expand(&context, "look at @shot.png", |name| {
        let facts = ImageFacts {
            found: Ok(format!("{ROOT}/shot.png")),
            is_file: true,
            size: Ok(14),
            data: Ok(b"fake-png-bytes".to_vec()),
        };
        read_project_image(ROOT, name, ImageKind::Png, facts).map(Fetched::Image)
    })
    .unwrap();

    assert_eq!(expanded.images.len(), 1);
    assert_eq!(expanded.images[0].media_type, "image/png");
    assert_eq!(expanded.images[0].data, "ZmFrZS1wbmctYnl0ZXM=");
    // The text notes the attachment but does not inline the bytes.
    assert!(expanded.text.contains("shot.png"));
    assert!(!expanded.text.contains("fake-png-bytes"));
}

#[test]
fn rejects_images_over_the_size_limit() {
    let context = project(Vec::new());

    let error = expand(&context, "see @big.jpg", |name| {
        let facts = ImageFacts {
            found: Ok(format!("{ROOT}/big.jpg")),
            is_file: true,
            size: Ok(MAX_IMAGE_BYTES + 1),
            data: Ok(vec![0u8; (MAX_IMAGE_BYTES + 1) as usize]),
        };
        read_project_image(ROOT, name, ImageKind::Jpeg, facts).map(Fetched::Image)
    })
    .unwrap_err()
    .message();

    assert!(error.contains("image limit"));
}

#[test]
fn the_inspected_size_of_an_image_decides() {
    let facts = |size: u64, data: Vec<u8>| ImageFacts {
        found: Ok(format!("{ROOT}/a.png")),
        is_file: true,
        size: Ok(size),
        data: Ok(data),
    };
    // It grew between the look at its size and the reading.
    let grown = vec![0u8; (MAX_IMAGE_BYTES + 1) as usize];
    let image = read_project_image(ROOT, "a.png", ImageKind::Png, facts(3, grown)).unwrap();
    assert_eq!(image.data.len() as u64, (MAX_IMAGE_BYTES + 1).div_ceil(3) * 4);
}

#[test]
fn images_are_written_in_base64() {
    let written = |data: &[u8]| {
        let facts = ImageFacts {
            found: Ok(format!("{ROOT}/a.gif")),
            is_file: true,
            size: Ok(data.len() as u64),
            data: Ok(data.to_vec()),
        };
        read_project_image(ROOT, "a.gif", ImageKind::Gif, facts).unwrap().data
    };
    assert_eq!(written(b""), "");
    assert_eq!(written(b"f"), "Zg==");
    assert_eq!(written(b"fo"), "Zm8=");
    assert_eq!(written(b"foo"), "Zm9v");
    assert_eq!(written(b"foobar"), "Zm9vYmFy");
    assert_eq!(written(&[251, 255, 191]), "+/+/");
}

#[test]
fn a_blank_clipboard_holds_no_text() {
    assert_eq!(clipboard_text(Some(" \n\t".to_string())), None);
    assert_eq!(clipboard_text(Some(String::new())), None);
    assert_eq!(clipboard_text(None), None);
    assert_eq!(clipboard_text(Some(" x\n".to_string())), Some(" x\n".to_string()));
}

#[test]
fn what_is_attached_leaves_less_budget() {
    let text = |n: usize| Ok(Fetched::Text("x".repeat(n)));
    assert_eq!(budget_left(&[]), Some(MAX_CONTEXT_BYTES));
    assert_eq!(budget_left(&[text(10), text(20)]), Some(MAX_CONTEXT_BYTES - 30));
    assert_eq!(budget_left(&[text(MAX_CONTEXT_BYTES)]), Some(0));
    assert_eq!(budget_left(&[text(1), text(MAX_CONTEXT_BYTES), text(1)]), None);
    assert_eq!(budget_left(&[Err(ContextError::TooMuch), text(1)]), None);
    let directory = Directory { blocks: String::new(), used: 7, attached: 1, omitted: 2 };
    assert_eq!(budget_left(&[Ok(Fetched::Directory(directory))]), Some(MAX_CONTEXT_BYTES - 7));

    let many = |attached, omitted| {
        Ok(Fetched::Directory(Directory { blocks: String::new(), used: 0, attached, omitted }))
    };
    assert!(counts_fit(&[many(u64::MAX, 0), many(0, u64::MAX)]));
    assert!(!counts_fit(&[many(u64::MAX, 0), text(1)]));
    assert!(!counts_fit(&[many(0, u64::MAX), many(0, 1)]));
}

#[test]
fn encodes_clipboard_pixels_into_a_png_attachment() {
    // A single opaque red pixel.
    let attachment = encode_png(1, 1, &[255, 0, 0, 255]).unwrap();

    assert_eq!(attachment.media_type, "image/png");
    let bytes =
        base64::engine::general_purpose::STANDARD.decode(attachment.data).unwrap();
    assert_eq!(&bytes[..8], b"\x89PNG\r\n\x1a\n"); // PNG magic number
}

#[test]
fn clipboard_pixels_must_make_up_an_image() {
    let message = |width, height, rgba: &[u8]| encode_png(width, height, rgba).unwrap_err().message();
    assert_eq!(
        message(2, 1, &[0, 0, 0, 0]),
        "failed to encode the clipboard image: wrong data size, expected 8 got 4"
    );
    assert_eq!(
        message(0, 1, &[0, 0, 0, 0]),
        "failed to encode the clipboard image: Zero width not allowed"
    );
    let largest = u32::MAX as usize;
    assert_eq!(
        message(largest, largest, &[]),
        "failed to encode the clipboard image: Limits are exceeded."
    );
    let cause = u32::try_from(1u64 << 40).unwrap_err().to_string();
    assert_eq!(message(1 << 40, 1, &[]), format!("clipboard image is too wide: {cause}"));
    assert_eq!(message(1, 1 << 40, &[]), format!("clipboard image is too tall: {cause}"));
}

#[test]
fn file_references_strip_punctuation_and_deduplicate() {
    let refs = file_references("see @a.rs, and @b.rs; also @a.rs and a bare @");
    assert_eq!(refs, vec!["a.rs".to_string(), "b.rs".to_string()]);
}

fn entry(is_dir: bool, name: &str) -> Entry {
    Entry { is_dir, name: name.to_string() }
}

#[test]
fn lists_directory_entries_within_the_project() {
    let listing = list_project_directory(
        ROOT,
        ".",
        Ok(ROOT.to_string()),
        true,
        &[entry(false, "a.txt"), entry(true, "src")],
    )
    .unwrap();

    assert!(listing.contains("src/"));
    assert!(listing.contains("a.txt"));
    assert!(listing.find("src/").unwrap() < listing.find("a.txt").unwrap());
}

#[test]
fn listing_rejects_a_file_path() {
    let error =
        list_project_directory(ROOT, "a.txt", Ok(format!("{ROOT}/a.txt")), false, &[])
            .unwrap_err();
    assert!(error.message().contains("not a directory"));
}

#[test]
fn an_empty_directory_says_so() {
    let listing = list_project_directory(ROOT, "e", Ok(format!("{ROOT}/e")), true, &[]).unwrap();
    assert_eq!(listing, "(empty directory)");
}

#[test]
fn image_kinds_are_told_by_the_extension() {
    assert_eq!(image_media_type("a/b.PNG").unwrap().name(), "image/png");
    assert_eq!(image_media_type("b.jpeg").unwrap().name(), "image/jpeg");
    assert_eq!(image_media_type("b.JPG").unwrap().name(), "image/jpeg");
    assert_eq!(image_media_type("b.gif").unwrap().name(), "image/gif");
    assert_eq!(image_media_type("b.webp").unwrap().name(), "image/webp");
    assert!(image_media_type("b.rs").is_none());
    assert!(image_media_type(".png").is_none());
    assert_eq!(source_of("clipboard"), Source::Clipboard);
    assert_eq!(source_of("src"), Source::Path);
}

#[test]
fn paths_read_as_those_of_the_standard_library() {
    let paths = [
        "", "/", "a", "a/b", "a//b", "./a", "a/./b", "a/../b", "/a/b/", ".hidden", "x.tar.gz",
        "a/b.", "..", "a/..", "/x.y/z",
    ];
    for path in paths {
        let expected: Vec<String> = std::path::Path::new(path)
            .components()
            .filter(|part| !matches!(part, std::path::Component::RootDir | std::path::Component::CurDir))
            .map(|part| part.as_os_str().to_str().unwrap().to_string())
            .collect();
        assert_eq!(components_of(path), expected, "{path}");
        let extension = std::path::Path::new(path)
            .extension()
            .map(|found| found.to_str().unwrap().to_string());
        assert_eq!(extension_of(path), extension, "{path}");
        for root in ["/", "/a", "/a/b", "/x.y"] {
            assert_eq!(
                is_within(root, path),
                std::path::Path::new(path).starts_with(root),
                "{root} {path}"
            );
        }
    }
}

#[test]
fn references_stay_inside_the_project() {
    let outside = resolve_within_root(ROOT, "../secret", Ok("/tmp/secret".to_string()));
    assert_eq!(outside.unwrap_err().message(), "path is outside the project: ../secret");
    let sibling = resolve_within_root(ROOT, "../project2", Ok("/tmp/project2".to_string()));
    assert!(sibling.is_err());

    assert_eq!(
        resolve_for_write(ROOT, "src/new.rs", Ok(format!("{ROOT}/src")), true).unwrap(),
        format!("{ROOT}/src/new.rs")
    );
    let escape = resolve_for_write(ROOT, "../new.rs", Ok("/tmp".to_string()), true).unwrap_err();
    assert_eq!(escape.message(), "path is outside the project: ../new.rs");
    let missing = || Err("No such file or directory (os error 2)".to_string());
    let orphan = resolve_for_write(ROOT, "no/new.rs", missing(), false).unwrap_err();
    assert_eq!(
        orphan.message(),
        format!(
            "the parent directory of no/new.rs does not exist in {ROOT}: \
             No such file or directory (os error 2)"
        )
    );
    let beneath =
        resolve_for_write(ROOT, "a.txt/b", Ok(format!("{ROOT}/a.txt")), false).unwrap_err();
    assert_eq!(
        beneath.message(),
        format!("the parent directory of a.txt/b does not exist in {ROOT}: not a directory")
    );
    let nameless = resolve_for_write(ROOT, "src/..", Ok(format!("{ROOT}/src")), true).unwrap_err();
    assert_eq!(nameless.message(), "path has no file name: src/..");
    let absolute = resolve_for_write(ROOT, "/etc/x", missing(), false).unwrap_err();
    assert_eq!(absolute.message(), "path must be relative to the project: /etc/x");
    let rootless = resolve_for_write("/", ".", Ok("/".to_string()), true).unwrap_err();
    assert_eq!(rootless.message(), "path has no parent directory: .");
}

#[test]
fn paths_of_windows_have_two_separators() {
    let root = r"\\?\C:\work\app";
    let found = |path: &str| Ok(path.to_string());
    assert_eq!(
        resolve_within_root(root, r"src\a.rs", found(r"\\?\C:\work\app\src\a.rs")).unwrap(),
        r"\\?\C:\work\app\src\a.rs"
    );
    assert_eq!(
        resolve_for_write(root, r"src\new.rs", found(r"\\?\C:\work\app\src"), true).unwrap(),
        r"\\?\C:\work\app\src\new.rs"
    );
    assert_eq!(
        resolve_for_write(r"C:\app", "src/new.rs", found(r"C:\app\src"), true).unwrap(),
        r"C:\app\src\new.rs"
    );
    let sibling = resolve_within_root(root, r"..\app2", found(r"\\?\C:\work\app2")).unwrap_err();
    assert_eq!(sibling.message(), r"path is outside the project: ..\app2");
    for reference in [r"C:\x", "C:/x", r"\\server\share"] {
        let error = resolve_within_root(root, reference, found(root)).unwrap_err();
        assert_eq!(error.message(), format!("path must be relative to the project: {reference}"));
    }
    assert!(!is_absolute(r"\x", true) && !is_absolute("C:x", true));
    // Elsewhere a backslash is a character like any other.
    assert_eq!(
        resolve_for_write(ROOT, r"a\b", found(ROOT), true).unwrap(),
        format!(r"{ROOT}/a\b")
    );
    assert!(!is_windows(ROOT) && is_windows(root) && is_windows(r"d:\x"));
}

#[test]
fn attached_context_stays_in_budget() {
    let mut expansion = Expansion::new();
    let half = "x".repeat(MAX_CONTEXT_BYTES / 2);
    expansion.add("a", Fetched::Text(half.clone())).unwrap();
    assert_eq!(expansion.budget(), MAX_CONTEXT_BYTES / 2);
    expansion.add("b", Fetched::Text(half)).unwrap();
    assert_eq!(expansion.budget(), 0);
    let error = expansion.add("c", Fetched::Text("y".to_string())).unwrap_err();
    assert_eq!(error.message(), "attached context exceeds 128 KiB");

    let mut directory = Directory::new();
    directory.add(10, directory_file("a", Some("12345678")));
    directory.add(10, directory_file("b", Some("123")));
    directory.add(10, directory_file("c", Some("12")));
    assert_eq!((directory.used, directory.attached, directory.omitted), (10, 2, 1));
    assert!(!directory.is_full());
}

fn parsed(text: &str) -> Value {
    text.parse().unwrap()
}

#[test]
fn renders_text_content_parts() {
    let result = parsed(
        r#"{"content": [{"type": "text", "text": "first"}, {"type": "text", "text": "second"}]}"#,
    );
    assert_eq!(render_result(&result), "first\nsecond");
}

#[test]
fn marks_error_results_so_the_model_can_recover() {
    let result = parsed(
        r#"{"content": [{"type": "text", "text": "no such sheet"}], "isError": true}"#,
    );
    assert_eq!(render_result(&result), "Error: no such sheet");
}

#[test]
fn falls_back_to_json_when_there_is_no_text() {
    let result = parsed(r#"{ "content": [{"type": "image", "data": "abc"}] }"#);
    assert!(render_result(&result).contains("image"));
}

#[test]
fn tool_guidance_is_present_only_when_tools_are_enabled() {
    let with_tools = build(true, None);
    assert!(with_tools.contains("patch_file"));
    assert!(with_tools.contains("Kamui"));

    let without_tools = build(false, None);
    assert!(!without_tools.contains("patch_file"));
    assert!(without_tools.contains("Kamui"));
}

#[test]
fn project_instructions_are_appended() {
    let prompt = build(true, Some("Always use tabs, never spaces."));
    assert!(prompt.contains("Always use tabs, never spaces."));
    // Instructions come after the tool guidance.
    assert!(prompt.find("patch_file").unwrap() < prompt.find("tabs").unwrap());
}
