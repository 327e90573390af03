use exarp::collect::{FsTree, collect_files, is_excluded_name};

fn file(name: &str, path: &str, size: u64) -> FsTree {
    FsTree::File { name: String::from(name), path: String::from(path), size }
}

fn dir(name: &str, entries: Vec<FsTree>) -> FsTree {
    FsTree::Dir { name: String::from(name), entries }
}

fn paths(tree: &FsTree) -> Vec<String> {
    collect_files(tree).into_iter().map(|f| f.path).collect()
}

#[test]
fn nothing_under_an_excluded_directory_is_collected() {
    let tree = dir(
        "root",
        vec![
            file("a.txt", "/r/a.txt", 100),
            dir(
                ".git",
                vec![file("big.pack", "/r/.git/big.pack", 5000), dir(
                    "objects",
                    vec![file("obj", "/r/.git/objects/obj", 900)],
                )],
            ),
            dir("node_modules", vec![file("mod.js", "/r/node_modules/mod.js", 300)]),
            dir("__pycache__", vec![file("m.pyc", "/r/__pycache__/m.pyc", 300)]),
            dir("src", vec![file("lib.rs", "/r/src/lib.rs", 200)]),
        ],
    );
    assert_eq!(paths(&tree), vec!["/r/a.txt", "/r/src/lib.rs"]);
}

#[test]
fn hidden_entries_below_the_root_are_skipped() {
    let tree = dir(
        "root",
        vec![
            file(".hidden", "/r/.hidden", 500),
            dir(".cache", vec![file("blob", "/r/.cache/blob", 500)]),
            file("seen.txt", "/r/seen.txt", 500),
        ],
    );
    assert_eq!(paths(&tree), vec!["/r/seen.txt"]);
}

#[test]
fn small_files_are_not_collected() {
    let tree = dir(
        "root",
        vec![file("tiny", "/r/tiny", 63), file("exact", "/r/exact", 64), file(
            "big",
            "/r/big",
            65,
        )],
    );
    assert_eq!(paths(&tree), vec!["/r/exact", "/r/big"]);
}

#[test]
fn the_root_is_traversed_whatever_its_name() {
    // A root directory that would be excluded anywhere else.
    let tree = dir(".git", vec![file("config", "/repo/.git/config", 100)]);
    assert_eq!(paths(&tree), vec!["/repo/.git/config"]);
    // A root that is itself a dot-file.
    let tree = file(".gitignore", "/r/.gitignore", 100);
    assert_eq!(paths(&tree), vec!["/r/.gitignore"]);
}

#[test]
fn exclusion_names() {
    assert!(is_excluded_name(&String::from(".git")));
    assert!(is_excluded_name(&String::from(".anything")));
    assert!(is_excluded_name(&String::from("node_modules")));
    assert!(is_excluded_name(&String::from("venv")));
    assert!(is_excluded_name(&String::from("__pycache__")));
    assert!(!is_excluded_name(&String::from("src")));
    assert!(!is_excluded_name(&String::from("git")));
    assert!(!is_excluded_name(&String::from("")));
}
