use swissarmyhammer::parser::ParseError;
use swissarmyhammer::resolver::{
    MemoryWorkflowStorage, PromptLibrary, PromptLoader, PromptResolver, ResolveError,
    WorkflowResolver,
};
use swissarmyhammer::vfs::{resource_name, FileEntry, FileSource, VirtualFileSystem};

fn entry(name: &str, content: &str, source: FileSource) -> FileEntry {
    FileEntry::new(name.to_string(), content.to_string(), source)
}

#[test]
fn test_debug_error_prompt_is_correctly_tracked_as_builtin() {
    let mut resolver = PromptResolver::new();
    let mut library = PromptLibrary::new();

    resolver.load_builtin_prompts().unwrap();

    let loader = PromptLoader::new();
    for file in resolver.vfs.list() {
        let prompt = loader.load_from_string(&file.name, &file.content).unwrap();
        resolver
            .prompt_sources
            .insert(prompt.name.clone(), file.source.clone());
        library.add(prompt).unwrap();
    }

    let prompts = library.list().unwrap();
    let debug_error_prompt = prompts.iter().find(|p| p.name == "debug/error");

    if let Some(_prompt) = debug_error_prompt {
        assert_eq!(
            resolver.prompt_sources.get("debug/error"),
            Some(&FileSource::Builtin),
            "debug/error prompt should be tracked as Builtin, but was tracked as: {:?}",
            resolver.prompt_sources.get("debug/error")
        );
    } else {
        let debug_hyphen_error_prompt = prompts.iter().find(|p| p.name == "debug-error");
        if let Some(_prompt) = debug_hyphen_error_prompt {
            panic!("Found prompt named 'debug-error' instead of 'debug/error'. This indicates the frontmatter is overriding the build script name.");
        } else {
            let builtin_prompt_names: Vec<String> =
                prompts.iter().map(|p| p.name.clone()).collect();
            panic!(
                "debug/error prompt not found. Available builtin prompts: {builtin_prompt_names:?}"
            );
        }
    }
}

#[test]
fn test_get_prompt_directories() {
    let resolver = PromptResolver::new();
    let directories = resolver.get_prompt_directories().unwrap();

    for dir in directories {
        let path = std::path::Path::new(&dir);
        assert!(path.is_absolute());
        assert!(path.exists());
        assert!(path.is_dir());
    }
}

#[test]
fn user_prompt_is_tracked_as_user() {
    let mut resolver = PromptResolver::new();
    let mut library = PromptLibrary::new();
    let scanned = vec![entry("test_prompt", "This is a test prompt", FileSource::User)];
    resolver.load_all_prompts(&mut library, &scanned).unwrap();
    let prompt = library.get("test_prompt").unwrap();
    assert_eq!(prompt.name, "test_prompt");
    assert_eq!(prompt.template, "This is a test prompt");
    assert_eq!(resolver.prompt_sources.get("test_prompt"), Some(&FileSource::User));
    assert_eq!(resolver.prompt_sources.get("debug/error"), Some(&FileSource::Builtin));
}

#[test]
fn local_prompt_overrides_every_tier() {
    let mut resolver = PromptResolver::new();
    let mut library = PromptLibrary::new();
    let scanned = vec![
        entry("debug/error", "user text", FileSource::User),
        entry("debug/error", "local text", FileSource::Local),
        entry("only_local", "just here", FileSource::Local),
    ];
    resolver.load_all_prompts(&mut library, &scanned).unwrap();
    assert_eq!(resolver.prompt_sources.get("debug/error"), Some(&FileSource::Local));
    assert_eq!(library.get("debug/error").unwrap().template, "local text");
    assert_eq!(resolver.prompt_sources.get("only_local"), Some(&FileSource::Local));
}

#[test]
fn builtin_only_load_is_all_builtin() {
    let mut resolver = PromptResolver::new();
    let mut library = PromptLibrary::new();
    resolver.load_all_prompts(&mut library, &Vec::new()).unwrap();
    for p in library.list().unwrap() {
        assert_eq!(resolver.prompt_sources.get(&p.name), Some(&FileSource::Builtin));
    }
    assert!(library.get("help").is_some());
}

#[test]
fn reload_after_local_file_is_deleted() {
    let user = entry("summary", "user summary", FileSource::User);
    let local = entry("summary", "local summary", FileSource::Local);
    let gone = entry("scratch", "local only", FileSource::Local);

    let mut first = PromptResolver::new();
    let mut lib1 = PromptLibrary::new();
    first.load_all_prompts(&mut lib1, &vec![user, local, gone]).unwrap();
    assert_eq!(first.prompt_sources.get("summary"), Some(&FileSource::Local));
    assert_eq!(first.prompt_sources.get("scratch"), Some(&FileSource::Local));

    let mut second = PromptResolver::new();
    let mut lib2 = PromptLibrary::new();
    let user = entry("summary", "user summary", FileSource::User);
    second.load_all_prompts(&mut lib2, &vec![user]).unwrap();
    assert_eq!(second.prompt_sources.get("summary"), Some(&FileSource::User));
    assert_eq!(lib2.get("summary").unwrap().template, "user summary");
    assert_eq!(second.prompt_sources.get("scratch"), None);
    assert!(lib2.get("scratch").is_none());
}

#[test]
fn lower_tier_never_replaces_higher() {
    let mut vfs = VirtualFileSystem::new("prompts");
    vfs.merge(entry("a", "local", FileSource::Local));
    vfs.merge(entry("a", "user", FileSource::User));
    vfs.add_builtin("a".to_string(), "builtin".to_string());
    vfs.merge(entry("b", "first", FileSource::User));
    vfs.merge(entry("b", "second", FileSource::User));
    let files = vfs.list();
    assert_eq!(files.len(), 2);
    let a = files.iter().find(|f| f.name == "a").unwrap();
    assert_eq!(a.content, "local");
    assert_eq!(a.source, FileSource::Local);
    let b = files.iter().find(|f| f.name == "b").unwrap();
    assert_eq!(b.content, "second");
}

#[test]
fn directories_keep_registration_order() {
    let mut vfs = VirtualFileSystem::new("workflows");
    vfs.add_directory("/home/u/.swissarmyhammer/workflows".to_string());
    vfs.add_directory("/work/.swissarmyhammer/workflows".to_string());
    vfs.add_directory("/home/u/.swissarmyhammer/workflows".to_string());
    assert_eq!(
        vfs.get_directories(),
        vec![
            "/home/u/.swissarmyhammer/workflows".to_string(),
            "/work/.swissarmyhammer/workflows".to_string()
        ]
    );
}

#[test]
fn workflows_load_with_tiers() {
    let mut resolver = WorkflowResolver::new();
    let mut storage = MemoryWorkflowStorage::new();
    let local = entry(
        "test-workflow",
        "---\nname: test-workflow\ndescription: Test workflow for validation\n---\n\nstateDiagram-v2\n    [*] --> Start\n    Start --> Process\n    Process --> End\n    End --> [*]\n",
        FileSource::Local,
    );
    resolver.load_all_workflows(&mut storage, &vec![local]).unwrap();
    let wf = storage.get("test-workflow").unwrap();
    assert_eq!(wf.states.len(), 3);
    assert_eq!(resolver.workflow_sources.get("test-workflow"), Some(&FileSource::Local));
    assert_eq!(resolver.workflow_sources.get("hello-world"), Some(&FileSource::Builtin));
    assert!(storage.get("hello-world").is_some());
}

#[test]
fn malformed_workflow_aborts_the_load() {
    let mut resolver = WorkflowResolver::new();
    let mut storage = MemoryWorkflowStorage::new();
    let bad = entry("broken", "name: broken\n\nA --> B\nA --> C", FileSource::User);
    match resolver.load_all_workflows(&mut storage, &vec![bad]) {
        Err(ResolveError::Parse { name, source, .. }) => {
            assert_eq!(name, "broken");
            assert_eq!(source, FileSource::User);
        }
        Ok(()) => panic!("load should fail"),
    }
    assert!(storage.get("hello-world").is_none());
}

#[test]
fn resource_names_drop_the_extension() {
    assert_eq!(resource_name("debug/error.md"), Some("debug/error".to_string()));
    assert_eq!(resource_name("notes.txt"), None);
    assert_eq!(resource_name(".md"), None);
}

#[test]
fn validate_all_reports_every_workflow() {
    let mut resolver = WorkflowResolver::new();
    let scanned = vec![
        entry("good", "name: good\n\n[*] --> A\nA --> [*]", FileSource::Local),
        entry("broken", "name: broken\n\nA --> B\nA --> C", FileSource::User),
        entry("stuck", "name: stuck\n\n[*] --> A\nA --> A", FileSource::User),
    ];
    let reports = resolver.validate_all(&scanned);
    assert_eq!(reports.len(), 4);
    let good = reports.iter().find(|r| r.name == "good").unwrap();
    assert!(good.parsed.is_ok());
    assert!(good.findings.is_empty());
    assert_eq!(good.source, FileSource::Local);
    let broken = reports.iter().find(|r| r.name == "broken").unwrap();
    assert!(broken.parsed.is_err());
    let stuck = reports.iter().find(|r| r.name == "stuck").unwrap();
    assert_eq!(stuck.findings.len(), 1);
    assert!(reports.iter().any(|r| r.name == "hello-world" && r.source == FileSource::Builtin));
}

#[test]
fn reload_in_place_drops_stale_prompts() {
    let mut resolver = PromptResolver::new();
    let mut library = PromptLibrary::new();
    resolver
        .load_all_prompts(&mut library, &vec![entry("gone", "x", FileSource::Local)])
        .unwrap();
    assert_eq!(resolver.prompt_sources.get("gone"), Some(&FileSource::Local));
    let mut fresh = PromptLibrary::new();
    resolver.load_all_prompts(&mut fresh, &Vec::new()).unwrap();
    assert_eq!(resolver.prompt_sources.get("gone"), None);
    assert!(fresh.get("gone").is_none());
    assert!(resolver.vfs.list().iter().all(|f| f.source == FileSource::Builtin));
}

#[test]
fn ambiguous_workflow_error_has_line() {
    let mut resolver = WorkflowResolver::new();
    let mut storage = MemoryWorkflowStorage::new();
    let bad = entry("w", "name: w\n\n[*] --> A\nA --> B\nA --> C\nB --> [*]\nC --> [*]", FileSource::Local);
    match resolver.load_all_workflows(&mut storage, &vec![bad]) {
        Err(ResolveError::Parse { name, source, error: ParseError::AmbiguousTransition { line, state } }) => {
            assert_eq!(name, "w");
            assert_eq!(source, FileSource::Local);
            assert_eq!(line, 5);
            assert_eq!(state, "A");
        }
        other => panic!("unexpected: {other:?}"),
    }
    assert!(storage.get("hello-world").is_none());
    assert_eq!(resolver.workflow_sources.get("hello-world"), None);
}
