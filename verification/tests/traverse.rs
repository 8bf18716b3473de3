use backup_ignore::matcher::{ignored_by_any, maybe_build_gitignore, own_matcher, Verdict, WalkError};
use backup_ignore::path::DirPath;
use backup_ignore::walk::{find_directory_to_ignore, Action, Entry, Event, Stage};
use ignore::gitignore::GitignoreBuilder;
use std::collections::{BTreeMap, BTreeSet, HashSet};
use std::path::PathBuf;

#[derive(Debug, Clone, Copy)]
enum FileType {
    Dir,
    File(&'static str),
}

/// A tree in memory. Its paths are relative to the root, which is "".
struct Tree {
    dirs: BTreeSet<String>,
    files: BTreeMap<String, String>,
    unreadable: BTreeSet<String>,
}

fn join(dir: &str, name: &str) -> String {
    if dir.is_empty() {
        name.to_string()
    } else {
        format!("{}/{}", dir, name)
    }
}

fn parent(path: &str) -> Option<&str> {
    path.rfind('/').map(|at| &path[..at])
}

impl Tree {
    fn build(structure: &[(&str, FileType)]) -> Tree {
        let mut tree = Tree {
            dirs: BTreeSet::new(),
            files: BTreeMap::new(),
            unreadable: BTreeSet::new(),
        };
        tree.dirs.insert(String::new());
        for (path, file_type) in structure {
            match file_type {
                FileType::Dir => tree.add_dir_all(path),
                FileType::File(content) => {
                    if let Some(parent) = parent(path) {
                        tree.add_dir_all(parent);
                    }
                    tree.files.insert(path.to_string(), content.to_string());
                }
            }
        }
        tree
    }

    fn add_dir_all(&mut self, path: &str) {
        let mut path = path;
        loop {
            self.dirs.insert(path.to_string());
            match parent(path) {
                Some(up) => path = up,
                None => break,
            }
        }
    }

    fn entries(&self, dir: &str) -> Vec<Entry> {
        let mut found: BTreeMap<String, bool> = BTreeMap::new();
        for path in self.dirs.iter().filter(|path| !path.is_empty()) {
            if parent(path).unwrap_or("") == dir {
                found.insert(path[path.rfind('/').map_or(0, |at| at + 1)..].to_string(), true);
            }
        }
        for path in self.files.keys() {
            if parent(path).unwrap_or("") == dir {
                found.insert(path[path.rfind('/').map_or(0, |at| at + 1)..].to_string(), false);
            }
        }
        found.into_iter().map(|(name, is_dir)| Entry { name, is_dir }).collect()
    }
}

fn root() -> DirPath {
    DirPath::new(vec!["/".to_string(), "sandbox".to_string()])
}

fn absolute(path: &str) -> DirPath {
    let mut components = root().components;
    components.extend(path.split('/').filter(|part| !part.is_empty()).map(String::from));
    DirPath::new(components)
}

fn relative(dir: &DirPath) -> String {
    assert_eq!(dir.components[..2], root().components[..]);
    dir.components[2..].join("/")
}

fn rules(dir: &DirPath, content: &str) -> GitignoreBuilder {
    let path: PathBuf = dir.components.iter().collect();
    let mut builder = GitignoreBuilder::new(path);
    for line in content.lines() {
        let _ = builder.add_line(None, line);
    }
    builder
}

/// What a walk did: what it reported, what it asked, how it ended, and how
/// many matchers it held whenever it began with a directory.
struct Run {
    reported: Vec<String>,
    asked: Vec<String>,
    stack_sizes: Vec<(String, usize)>,
    failed: bool,
}

fn walk_tree(tree: &Tree, exclude_paths: &[&str]) -> Run {
    let excluded: Vec<DirPath> = exclude_paths.iter().map(|path| absolute(path)).collect();
    let mut run = Run { reported: vec![], asked: vec![], stack_sizes: vec![], failed: false };
    let (mut walk, mut action) = find_directory_to_ignore(&root(), &excluded);
    for _ in 0..10_000 {
        let event = match &action {
            Action::Exists { dir, name } => {
                let dir = relative(dir);
                if walk.stage() == Stage::Marker(0) {
                    run.stack_sizes.push((dir.clone(), walk.matcher_count()));
                }
                run.asked.push(format!("exists {}", join(&dir, name)));
                Event::Exists(tree.files.contains_key(&join(&dir, name)))
            }
            Action::Report(dir) => {
                run.reported.push(relative(dir));
                Event::Reported
            }
            Action::ReadRules(dir) => {
                run.asked.push(format!("rules {}", relative(dir)));
                Event::Rules(
                    tree.files.get(&join(&relative(dir), ".gitignore")).map(|text| rules(dir, text)),
                )
            }
            Action::List(dir) => {
                let dir = relative(dir);
                run.asked.push(format!("list {}", dir));
                if tree.unreadable.contains(&dir) {
                    Event::Listing(None)
                } else {
                    Event::Listing(Some(tree.entries(&dir)))
                }
            }
            Action::Finished => {
                assert_eq!(walk.stage(), Stage::Finished);
                assert_eq!(walk.depth(), 0);
                assert_eq!(walk.matcher_count(), 0);
                return run;
            }
        };
        match walk.step(event) {
            Ok(next) => action = next,
            Err(_) => {
                run.failed = true;
                return run;
            }
        }
    }
    panic!("the walk does not end");
}

struct TestCase {
    name: &'static str,
    structure: &'static [(&'static str, FileType)],
    exclude_paths: &'static [&'static str],
    expected: &'static [&'static str],
}

impl TestCase {
    fn run(&self) {
        let tree = Tree::build(self.structure);
        let run = walk_tree(&tree, self.exclude_paths);
        assert!(!run.failed);
        let results = run.reported;

        let expected_set: HashSet<_> = self.expected.iter().copied().collect();
        let results_set: HashSet<_> = results.iter().map(|s| s.as_str()).collect();

        assert_eq!(
            expected_set, results_set,
            "Test '{}' failed.\nExpected: {:?}\nGot: {:?}",
            self.name, self.expected, results
        );
        assert_eq!(results.len(), results_set.len(), "a directory was reported twice");
    }
}

#[test]
fn test_basic_gitignore() {
    TestCase {
        name: "basic gitignore",
        structure: &[
            ("a/.gitignore", FileType::File("ignored/")),
            ("a/ignored", FileType::Dir),
            ("a/not_ignored", FileType::Dir),
        ],
        exclude_paths: &[],
        expected: &["a/ignored"],
    }
    .run();
}

#[test]
fn test_directory_only() {
    TestCase {
        name: "directory only",
        structure: &[
            ("a", FileType::Dir),
            ("a/.gitignore", FileType::File("ignored")),
            ("a/ignored", FileType::File("")),
        ],
        exclude_paths: &[],
        expected: &[],
    }
    .run();
}

#[test]
fn test_nested_gitignore() {
    TestCase {
        name: "nested gitignore",
        structure: &[
            ("a", FileType::Dir),
            ("a/.gitignore", FileType::File("ignored/")),
            ("a/ignored", FileType::Dir),
            ("a/ignored/.gitignore", FileType::File("nested/")),
            ("a/ignored/nested", FileType::Dir),
            ("a/ignored/not_nested", FileType::Dir),
        ],
        exclude_paths: &[],
        expected: &["a/ignored"],
    }
    .run();
}

#[test]
fn test_dotgit() {
    TestCase {
        name: ".git",
        structure: &[
            (".git", FileType::Dir),
            (".gitignore", FileType::File("ignored/")),
            (".git/ignored", FileType::Dir),
            (".git/not_ignored", FileType::Dir),
        ],
        exclude_paths: &[],
        expected: &[],
    }
    .run();
}

#[test]
fn test_exclude_paths() {
    TestCase {
        name: "exclude paths",
        structure: &[
            (".gitignore", FileType::File("ignored/")),
            ("ignored", FileType::Dir),
            ("excluded", FileType::Dir),
            ("excluded/.gitignore", FileType::File("nested/")),
            ("excluded/nested", FileType::Dir),
        ],
        exclude_paths: &["excluded"],
        expected: &["ignored"],
    }
    .run();
}

#[test]
fn test_deja_dup_ignore_skips_directory() {
    TestCase {
        name: "deja-dup-ignore skips directory",
        structure: &[
            ("a", FileType::Dir),
            ("a/.gitignore", FileType::File("ignored/")),
            ("a/ignored", FileType::Dir),
            ("a/ignored/.deja-dup-ignore", FileType::File("")),
            ("a/ignored/nested", FileType::Dir),
        ],
        exclude_paths: &[],
        expected: &[],
    }
    .run();
}

#[test]
fn test_multiple_ignored_directories() {
    TestCase {
        name: "multiple ignored directories",
        structure: &[
            (
                ".gitignore",
                FileType::File("build/\ntarget/\nnode_modules/"),
            ),
            ("build", FileType::Dir),
            ("target", FileType::Dir),
            ("node_modules", FileType::Dir),
            ("src", FileType::Dir),
        ],
        exclude_paths: &[],
        expected: &["build", "target", "node_modules"],
    }
    .run();
}

#[test]
fn test_gitignore_pattern_matching() {
    TestCase {
        name: "gitignore pattern matching",
        structure: &[
            (".gitignore", FileType::File("*.log\n*.tmp")),
            ("test.log", FileType::Dir),
            ("debug.tmp", FileType::Dir),
            ("test.txt", FileType::Dir),
        ],
        exclude_paths: &[],
        expected: &["test.log", "debug.tmp"],
    }
    .run();
}

#[test]
fn test_no_gitignore() {
    TestCase {
        name: "no gitignore",
        structure: &[
            ("a", FileType::Dir),
            ("a/b", FileType::Dir),
            ("a/c", FileType::Dir),
        ],
        exclude_paths: &[],
        expected: &[],
    }
    .run();
}

#[test]
fn test_gitignore_inheritance() {
    TestCase {
        name: "gitignore inheritance",
        structure: &[
            (".gitignore", FileType::File("*.log")),
            ("a", FileType::Dir),
            ("a/test.log", FileType::Dir),
            ("b", FileType::Dir),
            ("b/.gitignore", FileType::File("*.tmp")),
            ("b/test.log", FileType::Dir),
            ("b/test.tmp", FileType::Dir),
        ],
        exclude_paths: &[],
        expected: &["a/test.log", "b/test.log", "b/test.tmp"],
    }
    .run();
}

#[test]
fn test_complex_scenario() {
    TestCase {
        name: "complex scenario",
        structure: &[
            (".gitignore", FileType::File("build/\n*.log")),
            ("build", FileType::Dir),
            ("src", FileType::Dir),
            ("src/.gitignore", FileType::File("target/")),
            ("src/target", FileType::Dir),
            ("src/main", FileType::Dir),
            ("test.log", FileType::Dir),
            ("excluded", FileType::Dir),
            ("excluded/.gitignore", FileType::File("ignored/")),
            ("excluded/ignored", FileType::Dir),
        ],
        exclude_paths: &["excluded"],
        expected: &["build", "src/target", "test.log"],
    }
    .run();
}

#[test]
fn test_cachedir_tag_skips_directory() {
    TestCase {
        name: "cachedir tag skips directory",
        structure: &[
            (".gitignore", FileType::File("cache/\nnested/")),
            ("cache", FileType::Dir),
            ("cache/CACHEDIR.TAG", FileType::File("Signature: 8a477f597d28d172789f06886806bc55")),
            ("cache/nested", FileType::Dir),
            ("other/nested", FileType::Dir),
        ],
        exclude_paths: &[],
        expected: &["other/nested"],
    }
    .run();
}

#[test]
fn test_rule_deep_below_its_file() {
    TestCase {
        name: "rule deep below its file",
        structure: &[
            (".gitignore", FileType::File("# build output\n\nout/\n")),
            ("a/b/c/d/out", FileType::Dir),
            ("a/b/out/x", FileType::Dir),
            ("a/b/c/outer", FileType::Dir),
        ],
        exclude_paths: &[],
        expected: &["a/b/c/d/out", "a/b/out"],
    }
    .run();
}

#[test]
fn test_rule_does_not_reach_outside_its_directory() {
    TestCase {
        name: "rule does not reach outside its directory",
        structure: &[
            ("a/.gitignore", FileType::File("dist/")),
            ("a/x/dist", FileType::Dir),
            ("b/dist", FileType::Dir),
        ],
        exclude_paths: &[],
        expected: &["a/x/dist"],
    }
    .run();
}

#[test]
fn test_anchored_rule() {
    TestCase {
        name: "anchored rule",
        structure: &[
            (".gitignore", FileType::File("/top/\nsub/deep/")),
            ("top", FileType::Dir),
            ("x/top", FileType::Dir),
            ("sub/deep", FileType::Dir),
            ("x/sub/deep", FileType::Dir),
        ],
        exclude_paths: &[],
        expected: &["top", "sub/deep"],
    }
    .run();
}

#[test]
fn test_negated_rule_of_the_same_file() {
    TestCase {
        name: "negated rule of the same file",
        structure: &[
            (".gitignore", FileType::File("*.d/\n!keep.d/")),
            ("drop.d", FileType::Dir),
            ("keep.d", FileType::Dir),
        ],
        exclude_paths: &[],
        expected: &["drop.d"],
    }
    .run();
}

#[test]
fn test_negated_rule_of_a_closer_file_does_not_undo_an_outer_rule() {
    TestCase {
        name: "negated rule of a closer file",
        structure: &[
            (".gitignore", FileType::File("build/")),
            ("sub/.gitignore", FileType::File("!build/")),
            ("sub/build", FileType::Dir),
        ],
        exclude_paths: &[],
        expected: &["sub/build"],
    }
    .run();
}

#[test]
fn test_excluded_path_that_does_not_exist() {
    TestCase {
        name: "excluded path that does not exist",
        structure: &[
            (".gitignore", FileType::File("target/")),
            ("a/target", FileType::Dir),
        ],
        exclude_paths: &["a/missing", "nowhere/at/all"],
        expected: &["a/target"],
    }
    .run();
}

#[test]
fn test_excluded_directory_that_matches_a_rule() {
    TestCase {
        name: "excluded directory that matches a rule",
        structure: &[
            (".gitignore", FileType::File("target/")),
            ("a/target/target", FileType::Dir),
            ("b/target", FileType::Dir),
        ],
        exclude_paths: &["a/target"],
        expected: &["b/target"],
    }
    .run();
}

#[test]
fn test_excluded_path_deep_inside() {
    TestCase {
        name: "excluded path deep inside",
        structure: &[
            (".gitignore", FileType::File("out/")),
            ("a/b/c/out", FileType::Dir),
            ("a/b/d/out", FileType::Dir),
            ("a/out", FileType::Dir),
        ],
        exclude_paths: &["a/b/c"],
        expected: &["a/b/d/out", "a/out"],
    }
    .run();
}

#[test]
fn test_directory_with_a_name_that_extends_an_excluded_one() {
    TestCase {
        name: "name that extends an excluded one",
        structure: &[
            (".gitignore", FileType::File("out/")),
            ("skip/out", FileType::Dir),
            ("skipped/out", FileType::Dir),
        ],
        exclude_paths: &["skip"],
        expected: &["skipped/out"],
    }
    .run();
}

#[test]
fn test_excluded_root_ends_at_once() {
    let (walk, action) = find_directory_to_ignore(&root(), &vec![DirPath::new(vec!["/".to_string()])]);
    assert!(matches!(action, Action::Finished));
    assert_eq!(walk.stage(), Stage::Finished);
    let (walk, action) = find_directory_to_ignore(&root(), &vec![root()]);
    assert!(matches!(action, Action::Finished));
    assert_eq!(walk.depth(), 0);
}

#[test]
fn test_first_request_is_for_the_first_marker_of_the_root() {
    let (walk, action) = find_directory_to_ignore(&root(), &Vec::new());
    match action {
        Action::Exists { dir, name } => {
            assert_eq!(dir.components, root().components);
            assert_eq!(name, ".deja-dup-ignore");
        }
        _ => panic!("the walk should ask for a marker"),
    }
    assert_eq!(walk.stage(), Stage::Marker(0));
    assert_eq!(walk.depth(), 1);
    assert_eq!(walk.matcher_count(), 0);
}

#[test]
fn test_reports_come_parent_first_in_listing_order() {
    let tree = Tree::build(&[
        (".gitignore", FileType::File("out/")),
        ("b/out", FileType::Dir),
        ("a/z/out", FileType::Dir),
        ("a/out", FileType::Dir),
        ("out", FileType::Dir),
        ("a/y/out", FileType::Dir),
    ]);
    let run = walk_tree(&tree, &[]);
    assert_eq!(run.reported, vec!["a/out", "a/y/out", "a/z/out", "b/out", "out"]);
}

#[test]
fn test_questions_of_one_directory_come_in_order() {
    let tree = Tree::build(&[("a/.gitignore", FileType::File("x/")), ("a/x", FileType::Dir)]);
    let run = walk_tree(&tree, &[]);
    assert_eq!(
        run.asked,
        vec![
            "exists .deja-dup-ignore",
            "exists CACHEDIR.TAG",
            "rules ",
            "list ",
            "exists a/.deja-dup-ignore",
            "exists a/CACHEDIR.TAG",
            "rules a",
            "list a",
            "exists a/x/.deja-dup-ignore",
            "exists a/x/CACHEDIR.TAG",
        ]
    );
    assert_eq!(run.reported, vec!["a/x"]);
}

#[test]
fn test_marker_ends_the_questions() {
    let tree = Tree::build(&[
        (".gitignore", FileType::File("a/")),
        ("a/.deja-dup-ignore", FileType::File("")),
        ("a/.gitignore", FileType::File("b/")),
        ("a/b", FileType::Dir),
    ]);
    let run = walk_tree(&tree, &[]);
    assert!(run.reported.is_empty());
    assert_eq!(
        run.asked,
        vec!["exists .deja-dup-ignore", "exists CACHEDIR.TAG", "rules ", "list ", "exists a/.deja-dup-ignore"]
    );
}

#[test]
fn test_nothing_is_asked_of_a_reported_directory() {
    let tree = Tree::build(&[
        (".gitignore", FileType::File("vendor/")),
        ("vendor/.gitignore", FileType::File("inner/")),
        ("vendor/inner", FileType::Dir),
        ("vendor/vendor", FileType::Dir),
    ]);
    let run = walk_tree(&tree, &[]);
    assert_eq!(run.reported, vec!["vendor"]);
    assert!(!run.asked.iter().any(|asked| asked == "rules vendor" || asked == "list vendor"));
    assert!(!run.asked.iter().any(|asked| asked.contains("vendor/inner")));
    assert!(!run.asked.iter().any(|asked| asked.contains("vendor/vendor")));
}

#[test]
fn test_nothing_is_asked_of_an_excluded_directory() {
    let tree = Tree::build(&[
        (".gitignore", FileType::File("out/")),
        ("keep/out", FileType::Dir),
        ("skip/out", FileType::Dir),
        ("skip/.deja-dup-ignore", FileType::File("")),
    ]);
    let run = walk_tree(&tree, &["skip"]);
    assert_eq!(run.reported, vec!["keep/out"]);
    assert!(!run.asked.iter().any(|asked| asked.contains("skip")));
}

#[test]
fn test_nothing_is_asked_of_the_directory_of_version_control() {
    let tree = Tree::build(&[
        (".gitignore", FileType::File(".git/\nobjects/")),
        (".git/objects", FileType::Dir),
        ("sub/.git/objects", FileType::Dir),
        ("sub/objects", FileType::Dir),
    ]);
    let run = walk_tree(&tree, &[]);
    assert_eq!(run.reported, vec!["sub/objects"]);
    assert!(!run.asked.iter().any(|asked| asked.contains(".git/")));
}

#[test]
fn test_a_file_called_like_the_directory_of_version_control() {
    let tree = Tree::build(&[("sub/.git", FileType::File("gitdir: ../.git/modules/sub"))]);
    let run = walk_tree(&tree, &[]);
    assert!(run.reported.is_empty());
    assert!(run.asked.contains(&"list sub".to_string()));
}

#[test]
fn test_stack_is_the_same_for_siblings() {
    let tree = Tree::build(&[
        (".gitignore", FileType::File("never/")),
        ("a/.gitignore", FileType::File("x/")),
        ("a/deep/.gitignore", FileType::File("y/")),
        ("a/deep/deeper/.gitignore", FileType::File("z/")),
        ("a/deep/deeper/deepest", FileType::Dir),
        ("a/shallow", FileType::Dir),
        ("b", FileType::Dir),
        ("c/.gitignore", FileType::File("w/")),
        ("c/d", FileType::Dir),
        ("e", FileType::Dir),
    ]);
    let run = walk_tree(&tree, &[]);
    assert!(run.reported.is_empty());
    let sizes: BTreeMap<_, _> = run.stack_sizes.iter().cloned().collect();
    assert_eq!(sizes[""], 0);
    for top in ["a", "b", "c", "e"] {
        assert_eq!(sizes[top], 1);
    }
    assert_eq!(sizes["a/deep"], 2);
    assert_eq!(sizes["a/shallow"], 2);
    assert_eq!(sizes["a/deep/deeper"], 3);
    assert_eq!(sizes["a/deep/deeper/deepest"], 4);
    assert_eq!(sizes["c/d"], 2);
}

#[test]
fn test_rule_of_an_earlier_sibling_is_gone() {
    TestCase {
        name: "rule of an earlier sibling is gone",
        structure: &[
            ("a/.gitignore", FileType::File("tmp/")),
            ("a/tmp", FileType::Dir),
            ("b/tmp", FileType::Dir),
            ("b/sub/tmp", FileType::Dir),
        ],
        exclude_paths: &[],
        expected: &["a/tmp"],
    }
    .run();
}

#[test]
fn test_unreadable_directory_is_passed_over() {
    let mut tree = Tree::build(&[
        (".gitignore", FileType::File("out/")),
        ("a/.gitignore", FileType::File("extra/")),
        ("a/out", FileType::Dir),
        ("b/out", FileType::Dir),
        ("b/extra", FileType::Dir),
    ]);
    tree.unreadable.insert("a".to_string());
    let run = walk_tree(&tree, &[]);
    assert!(!run.failed);
    assert_eq!(run.reported, vec!["b/out"]);
    let sizes: BTreeMap<_, _> = run.stack_sizes.iter().cloned().collect();
    assert_eq!(sizes["b"], 1);
}

#[test]
fn test_unreadable_root_ends_the_walk() {
    let mut tree = Tree::build(&[("a", FileType::Dir)]);
    tree.unreadable.insert(String::new());
    let run = walk_tree(&tree, &[]);
    assert!(!run.failed);
    assert!(run.reported.is_empty());
    assert_eq!(run.asked.last().unwrap(), "list ");
}

#[test]
fn test_unexpected_answer_changes_nothing() {
    let (mut walk, _) = find_directory_to_ignore(&root(), &Vec::new());
    assert!(matches!(walk.step(Event::Reported), Err(WalkError::UnexpectedEvent)));
    assert!(matches!(walk.step(Event::Rules(None)), Err(WalkError::UnexpectedEvent)));
    assert!(matches!(walk.step(Event::Listing(None)), Err(WalkError::UnexpectedEvent)));
    assert_eq!(walk.stage(), Stage::Marker(0));
    assert_eq!(walk.depth(), 1);
    assert!(matches!(walk.step(Event::Exists(false)), Ok(Action::Exists { .. })));
    assert!(matches!(walk.step(Event::Exists(false)), Ok(Action::ReadRules(_))));
    assert!(matches!(walk.step(Event::Exists(false)), Err(WalkError::UnexpectedEvent)));
    assert!(matches!(walk.step(Event::Rules(None)), Ok(Action::List(_))));
    assert!(matches!(walk.step(Event::Reported), Err(WalkError::UnexpectedEvent)));
    assert!(matches!(walk.step(Event::Listing(Some(Vec::new()))), Ok(Action::Finished)));
}

#[test]
fn test_a_finished_walk_expects_nothing() {
    let (mut walk, action) = find_directory_to_ignore(&root(), &vec![root()]);
    assert!(matches!(action, Action::Finished));
    assert!(matches!(walk.step(Event::Exists(true)), Err(WalkError::UnexpectedEvent)));
    assert!(matches!(walk.step(Event::Reported), Err(WalkError::UnexpectedEvent)));
    assert_eq!(walk.stage(), Stage::Finished);
}

#[test]
fn test_a_compile_failure_is_a_matcher_error() {
    let failure = ignore::Error::Glob { glob: None, err: "too big".to_string() };
    match own_matcher(Err(failure)) {
        Err(WalkError::MatcherBuild(ignore::Error::Glob { glob, err })) => {
            assert_eq!(glob, None);
            assert_eq!(err, "too big");
        }
        _ => panic!("a failure to compile must be handed on"),
    }
}

#[test]
fn test_compiled_rules_are_handed_on() {
    let built = own_matcher(rules(&root(), "out/").build());
    match built {
        Ok(Some(matcher)) => assert_eq!(matcher.len(), 1),
        _ => panic!("rules that compile give a matcher"),
    }
    assert!(matches!(maybe_build_gitignore(None), Ok(None)));
}

#[test]
fn test_matchers_are_asked_about_directories() {
    let outer = maybe_build_gitignore(Some(rules(&root(), "out/\n*.d\n!keep.d\nplain"))).unwrap().unwrap();
    let inner = maybe_build_gitignore(Some(rules(&absolute("sub"), "/local/"))).unwrap().unwrap();
    let stack = vec![outer, inner];
    assert!(ignored_by_any(&stack, &absolute("out")));
    assert!(ignored_by_any(&stack, &absolute("sub/deep/out")));
    assert!(ignored_by_any(&stack, &absolute("drop.d")));
    assert!(ignored_by_any(&stack, &absolute("plain")));
    assert!(ignored_by_any(&stack, &absolute("sub/local")));
    assert!(!ignored_by_any(&stack, &absolute("keep.d")));
    assert!(!ignored_by_any(&stack, &absolute("local")));
    assert!(!ignored_by_any(&stack, &absolute("sub/x/local")));
    assert!(!ignored_by_any(&stack, &absolute("outer")));
    assert!(!ignored_by_any(&Vec::new(), &absolute("out")));
}

#[test]
fn test_only_an_ignore_verdict_ignores() {
    assert!(Verdict::Ignored.is_ignore());
    assert!(!Verdict::Allowed.is_ignore());
    assert!(!Verdict::Unmatched.is_ignore());
}

#[test]
fn test_rules_that_do_not_compile_end_the_walk() {
    let (mut walk, _) = find_directory_to_ignore(&root(), &Vec::new());
    walk.step(Event::Exists(false)).unwrap();
    walk.step(Event::Exists(false)).unwrap();
    walk.step(Event::Rules(Some(rules(&root(), "keep/")))).unwrap();
    let entries = vec![Entry { name: "sub".to_string(), is_dir: true }];
    walk.step(Event::Listing(Some(entries))).unwrap();
    walk.step(Event::Exists(false)).unwrap();
    assert!(matches!(walk.step(Event::Exists(false)), Ok(Action::ReadRules(_))));
    assert_eq!(walk.depth(), 2);
    assert_eq!(walk.matcher_count(), 1);
    let huge = format!("{}x", "?".repeat(400_000));
    let broken = rules(&absolute("sub"), &huge);
    assert!(matches!(walk.step(Event::Rules(Some(broken))), Err(WalkError::MatcherBuild(_))));
    assert_eq!(walk.stage(), Stage::Failed);
    assert_eq!(walk.depth(), 0);
    assert_eq!(walk.matcher_count(), 0);
    assert!(matches!(walk.step(Event::Reported), Err(WalkError::UnexpectedEvent)));
}
