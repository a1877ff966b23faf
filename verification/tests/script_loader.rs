use bullrs::commands::script_loader::{
    join_path, Interpolation, keep_lua_files, select_lua_files, CommandDefinition, FileData, IncludePlan, ScriptLoader, ScriptLoaderError,
};
use bullrs::commands::resolver::{ResolveAction, ResolveEvent};
use bullrs::errors::BullRsError;

#[test]
fn test_resolve_path() {
    let mut loader = ScriptLoader::new("/project".to_string(), "/work".to_string());

    let path = loader.resolve_path("test.lua", &[]).unwrap();
    assert_eq!(path, "test.lua");

    loader.add_path_mapping("test", "/tmp", "/work").unwrap();
    let path = loader.resolve_path("<test>/script.lua", &[]).unwrap();
    assert_eq!(path, "/tmp/script.lua");
}

#[test]
fn root_and_default_mappings_resolve() {
    let loader = ScriptLoader::new("/project".to_string(), "/work".to_string());
    assert_eq!(loader.resolve_path("~/a.lua", &[]).unwrap(), "/project/a.lua");
    assert_eq!(loader.resolve_path("<rootDir>/a.lua", &[]).unwrap(), "/project/a.lua");
    assert_eq!(loader.resolve_path("<base>/b.lua", &[]).unwrap(), "/work/b.lua");
    assert_eq!(loader.resolve_path("<unclosed/a.lua", &[]).unwrap(), "<unclosed/a.lua");
    match loader.resolve_path("<missing>/a.lua", &[]) {
        Err(BullRsError::PathMappingNotFoundError(name)) => assert_eq!(name, "missing"),
        other => panic!("unexpected {:?}", other),
    }
}

#[test]
fn relative_mappings_are_taken_from_the_current_directory() {
    let mut loader = ScriptLoader::new("/project".to_string(), "/work".to_string());
    loader.add_path_mapping("inc", "includes", "/work/dir").unwrap();
    assert_eq!(loader.resolve_path("<inc>/x.lua", &[]).unwrap(), "/work/dir/includes/x.lua");
    loader.add_path_mapping("inc", "~/lib", "/ignored").unwrap();
    assert_eq!(loader.resolve_path("<inc>/x.lua", &[]).unwrap(), "/project/lib/x.lua");
    assert!(loader.add_path_mapping("bad", "<nope>/x", "/w").is_err());
    assert_eq!(loader.lookup_mapping("bad"), None);
    assert_eq!(join_path("/a/", "b"), "/a/b");
    assert_eq!(join_path("", "b"), "b");
    assert_eq!(join_path("/a", "/b"), "/b");
}

#[test]
fn scan_includes_finds_directives() {
    let mut loader = ScriptLoader::new("/p".to_string(), "/w".to_string());
    loader.add_path_mapping("includes", "/lib", "/w").unwrap();
    let content = "--@include 'foo'\nlocal x = 1\n--- @include \"<includes>/bar.lua\" ;\n-- @include '<nope>/z'\n----@include 'no'\n";
    let found = loader.scan_includes(content);
    assert_eq!(found.len(), 3);
    assert_eq!(found[0].path, "foo");
    assert_eq!(found[0].position, 0);
    assert_eq!(found[0].resolved.as_ref().unwrap(), "foo.lua");
    assert_eq!(found[1].path, "<includes>/bar.lua");
    assert_eq!(found[1].position, 29);
    assert_eq!(found[1].resolved.as_ref().unwrap(), "/lib/bar.lua");
    assert!(matches!(found[2].resolved, Err(BullRsError::PathMappingNotFoundError(_))));
}

#[test]
fn plan_include_inlines_then_marks_repeats() {
    let loader = ScriptLoader::new("/p".to_string(), "/w".to_string());
    let content = "--@include 'a'\nreturn 1\n";
    match loader.plan_include(content, 0, "a", &Vec::new()).unwrap() {
        IncludePlan::Inline { resolved_path, line } => {
            assert_eq!(resolved_path, "a.lua");
            assert_eq!(line, "--@include 'a'");
        }
        _ => panic!("expected inline"),
    }
    match loader.plan_include(content, 0, "a", &vec!["a.lua".to_string()]).unwrap() {
        IncludePlan::AlreadyIncluded { target, placeholder } => {
            assert_eq!(target, Some("--@include 'a".to_string()));
            assert_eq!(placeholder, "-- @include 'a' (already included)");
        }
        _ => panic!("expected placeholder"),
    }
    match loader.plan_include(content, 20, "a", &vec!["a.lua".to_string()]).unwrap() {
        IncludePlan::AlreadyIncluded { target, .. } => assert_eq!(target, None),
        _ => panic!("expected placeholder"),
    }
}

#[test]
fn command_definitions_from_file_names() {
    let c = CommandDefinition::from_script("/cmds/addJob-6.lua", "return 1".to_string());
    assert_eq!(c.name, "addJob");
    assert_eq!(c.num_keys, Some(6));
    assert_eq!(c.file_path, "/cmds/addJob-6.lua");
    let c = CommandDefinition::from_script("/cmds/pause.lua", String::new());
    assert_eq!(c.name, "pause");
    assert_eq!(c.num_keys, None);
}

#[test]
fn lua_files_are_selected() {
    let files = vec!["a.lua".to_string(), "b.txt".to_string(), "c.lua".to_string()];
    assert_eq!(select_lua_files(files).unwrap(), vec!["a.lua".to_string(), "c.lua".to_string()]);
    match select_lua_files(vec!["b.txt".to_string()]) {
        Err(BullRsError::GeneralError(m)) => assert_eq!(m, "No .lua files found!"),
        other => panic!("unexpected {:?}", other),
    }
}

#[test]
fn command_cache_and_load_registry() {
    let mut loader = ScriptLoader::new("/p".to_string(), "/w".to_string());
    assert!(loader.cached_commands("/cmds").is_none());
    loader.cache_commands("/cmds", vec![CommandDefinition::from_script("x-1.lua", "s".to_string())]);
    assert_eq!(loader.cached_commands("/cmds").unwrap()[0].name, "x");
    loader.clear_cache();
    assert!(loader.cached_commands("/cmds").is_none());
    assert!(loader.mark_loaded(7, "/cmds"));
    assert!(!loader.mark_loaded(7, "/cmds"));
    assert!(loader.mark_loaded(8, "/cmds"));
}

#[test]
fn file_data_records_includes_by_position() {
    let mut f = FileData::new("a.lua".to_string(), "x".to_string(), false);
    f.record_include(3, "b".to_string());
    f.record_include(9, "c".to_string());
    f.record_include(3, "d".to_string());
    assert_eq!(f.includes(), &vec![(3, "d".to_string()), (9, "c".to_string())]);
    f.add_dependency("b.lua".to_string(), &vec!["e.lua".to_string()]);
    assert_eq!(f.dependencies(), &vec!["b.lua".to_string(), "e.lua".to_string()]);
    assert!(!f.is_include());
    assert_eq!(f.path(), "a.lua");
    assert_eq!(f.clone().content(), "x");
}

#[test]
fn script_loader_error_text() {
    let e = ScriptLoaderError {
        message: "bad".to_string(),
        path: "a.lua".to_string(),
        includes: vec!["x".to_string(), "y".to_string()],
        line: 3,
        position: 14,
    };
    assert_eq!(e.to_string(), "bad at a.lua:3:14 (include stack: x -> y)");
    let e2 = ScriptLoaderError { includes: Vec::new(), ..e };
    assert_eq!(e2.to_string(), "bad at a.lua:3:14");
    match e2.into_error() {
        BullRsError::ScriptError(m) => assert_eq!(m, "bad at a.lua:3:14"),
        other => panic!("unexpected {:?}", other),
    }
}

#[test]
fn keep_lua_files_follows_the_extensions() {
    let paths = vec!["x/a.lua".to_string(), "x/b.txt".to_string(), "x/c.lua".to_string()];
    let exts = vec![Some("lua".to_string()), Some("txt".to_string()), Some("lua".to_string())];
    assert_eq!(keep_lua_files(paths, &exts).unwrap(), vec!["x/a.lua".to_string(), "x/c.lua".to_string()]);
    let none = keep_lua_files(vec!["x/README".to_string()], &vec![None]);
    match none {
        Err(BullRsError::GeneralError(m)) => assert_eq!(m, "No .lua files found!"),
        other => panic!("unexpected {:?}", other),
    }
}

#[test]
fn placeholder_line_is_not_scanned_as_an_include() {
    let loader = ScriptLoader::new("/project".to_string(), "/work".to_string());
    let content = "-- @include 'a' (already included)\nreturn 1";
    assert!(loader.scan_includes(content).is_empty());
    let directive = loader.scan_includes("-- @include 'a'\nreturn 1");
    assert_eq!(directive.len(), 1);
    assert_eq!(directive[0].path, "a");
}

fn resolve(
    loader: &ScriptLoader,
    files: &[(&str, &str)],
    path: &str,
    cache: Vec<(String, FileData)>,
) -> (Result<FileData, BullRsError>, Vec<String>, Vec<(String, FileData)>, usize) {
    let mut reads = 0;
    let (mut state, mut action) = loader.start_resolution(path, false, Vec::new(), cache);
    let result = loop {
        match action {
            ResolveAction::Read(p) => {
                reads += 1;
                let text = files.iter().find(|(n, _)| *n == p).map(|(_, t)| t.to_string()).unwrap_or_default();
                action = loader.resolve_step(&mut state, ResolveEvent::Contents(text));
            }
            ResolveAction::Proceed => action = loader.resolve_step(&mut state, ResolveEvent::Proceed),
            ResolveAction::Done(d) => break Ok(d),
            ResolveAction::Failed(e) => break Err(e),
        }
    };
    let (stack, cache) = state.into_parts();
    (result, stack, cache, reads)
}

#[test]
fn dependencies_are_resolved_depth_first_and_cached() {
    let loader = ScriptLoader::new("/p".to_string(), "/w".to_string());
    let files = [
        ("main.lua", "--@include 'a'\n--@include 'b'\nreturn 1"),
        ("a.lua", "--@include 'c'\n"),
        ("b.lua", "--@include 'c'\n"),
        ("c.lua", "return 3"),
    ];
    let (result, stack, cache, reads) = resolve(&loader, &files, "main.lua", Vec::new());
    let data = result.unwrap();
    assert_eq!(data.dependencies(), &vec!["a.lua", "c.lua", "b.lua", "c.lua"].iter().map(|s| s.to_string()).collect::<Vec<_>>());
    assert_eq!(data.includes(), &vec![(0, "a".to_string()), (15, "b".to_string())]);
    assert!(stack.is_empty());
    let names: Vec<&str> = cache.iter().map(|(p, _)| p.as_str()).collect();
    assert_eq!(names, vec!["c.lua", "a.lua", "b.lua", "main.lua"]);
    // c.lua is read once: the second include finds it in the cache.
    assert_eq!(reads, 4);
    // A cached file is done at once.
    let (again, _, _, reads) = resolve(&loader, &files, "a.lua", cache);
    assert_eq!(again.unwrap().dependencies(), &vec!["c.lua".to_string()]);
    assert_eq!(reads, 0);
}

#[test]
fn circular_includes_are_refused() {
    let loader = ScriptLoader::new("/p".to_string(), "/w".to_string());
    let files = [("x.lua", "--@include 'y'\n"), ("y.lua", "--@include 'x'\n")];
    let (result, stack, _, _) = resolve(&loader, &files, "x.lua", Vec::new());
    match result {
        Err(BullRsError::CircularReferenceError(p)) => assert_eq!(p, "x.lua"),
        other => panic!("unexpected {:?}", other.map(|d| d.path().clone())),
    }
    assert_eq!(stack, vec!["x.lua".to_string(), "y.lua".to_string()]);
    let (state, action) = loader.start_resolution("x.lua", false, vec!["x.lua".to_string()], Vec::new());
    assert!(matches!(action, ResolveAction::Failed(BullRsError::CircularReferenceError(_))));
    assert_eq!(state.into_parts().0, vec!["x.lua".to_string()]);
}

#[test]
fn unresolvable_include_fails_with_its_error() {
    let loader = ScriptLoader::new("/p".to_string(), "/w".to_string());
    let files = [("m.lua", "--@include '<nope>/z'\n")];
    let (result, _, _, _) = resolve(&loader, &files, "m.lua", Vec::new());
    assert!(matches!(result, Err(BullRsError::PathMappingNotFoundError(_))));
}

#[test]
fn interpolation_inlines_then_marks_repeats() {
    let loader = ScriptLoader::new("/p".to_string(), "/w".to_string());
    let content = "\n--@include 'a'\n--@include 'a'\nreturn 1";
    let mut interp = Interpolation::new(content, Vec::new());
    let plan = loader.plan_include(content, 1, "a", interp.processed()).unwrap();
    interp.apply_plan(plan, Some("local a = 1".to_string()));
    assert_eq!(interp.processed(), &vec!["a.lua".to_string()]);
    let plan = loader.plan_include(content, 16, "a", interp.processed()).unwrap();
    interp.apply_plan(plan, None);
    let (script, done) = interp.finish();
    assert_eq!(done, vec!["a.lua".to_string()]);
    assert!(script.starts_with("local a = 1"));
    assert!(script.ends_with("return 1"));
}
