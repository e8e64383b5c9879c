use hurlin::paths::{BaseDirSearch, BaseDirStep, PathDir, PathError};

#[test]
fn paths_are_joined_to_the_capped_directory() {
    let dir = PathDir::new("/cap".to_string());
    assert_eq!(dir.path(), "/cap");
    assert_eq!(dir.to_root("a/b.hurl"), "/cap/a/b.hurl");
    assert_eq!(dir.to_root("/etc/x"), "/etc/x");
}

#[test]
fn canonical_paths_are_seen_from_the_capped_directory() {
    let dir = PathDir::new("/cap".to_string());
    assert_eq!(dir.from_root("/cap/a/b.hurl"), Ok("a/b.hurl".to_string()));
    assert_eq!(dir.from_root("/cap"), Ok(String::new()));
}

#[test]
fn paths_outside_the_capped_directory_are_refused() {
    let dir = PathDir::new("/cap".to_string());
    assert_eq!(dir.from_root("/other/a.hurl"), Err(PathError::OutsideCap));
    assert_eq!(dir.from_root("/capital/a.hurl"), Err(PathError::OutsideCap));
    assert_eq!(PathDir::from_stripped(None), Err(PathError::OutsideCap));
    assert_eq!(
        PathError::OutsideCap.message(),
        "path does not exist within capped directory"
    );
}

#[test]
fn the_root_file_lies_in_its_own_directory() {
    let search = PathDir::parse_base_dir("sub/root.hurl", "/a/b");
    let dir = PathDir::new(drive(search, &[]).ok().unwrap());
    assert_eq!(dir.from_root("/a/b/sub/root.hurl"), Ok("root.hurl".to_string()));
    let search = PathDir::parse_base_dir("root.hurl", "/a/b");
    let dir = PathDir::new(drive(search, &[]).ok().unwrap());
    assert_eq!(dir.from_root("/a/b/root.hurl"), Ok("root.hurl".to_string()));
}

#[test]
fn paths_below_the_capped_directory_come_back() {
    for (cap, path) in [
        ("/cap", "/cap/a/b.hurl"),
        ("/cap", "/cap/a:b"),
        ("/", "/a/b"),
        ("/a/b", "/a/b/c"),
    ] {
        let dir = PathDir::new(cap.to_string());
        let rest = dir.from_root(path).ok().unwrap();
        assert_eq!(dir.to_root(&rest), path);
    }
}

fn drive(mut search: BaseDirSearch, repositories: &[&str]) -> Result<String, PathError> {
    loop {
        match search.step() {
            BaseDirStep::Probe(git) => {
                if let Some(dir) = search.answer(repositories.contains(&git.as_str())) {
                    return Ok(dir);
                }
            }
            BaseDirStep::Use(dir) => return Ok(dir),
            BaseDirStep::Fail(error) => return Err(error),
        }
    }
}

#[test]
fn the_nearest_repository_is_taken() {
    let search = || PathDir::parse_base_dir("sub/root.hurl", "/a/b/c");
    assert_eq!(drive(search(), &["/a/.git"]), Ok("/a".to_string()));
    assert_eq!(
        drive(search(), &["/a/.git", "/a/b/.git"]),
        Ok("/a/b".to_string())
    );
    assert_eq!(
        drive(search(), &["/.git", "/a/b/c/.git"]),
        Ok("/a/b/c".to_string())
    );
    assert_eq!(drive(search(), &["/.git"]), Ok("/".to_string()));
}

#[test]
fn without_a_repository_the_directory_of_the_root_file_is_taken() {
    let search = PathDir::parse_base_dir("sub/root.hurl", "/a/b/c");
    assert_eq!(drive(search, &[]), Ok("/a/b/c/sub".to_string()));
    let search = PathDir::parse_base_dir("/x/root.hurl", "/a");
    assert_eq!(drive(search, &[]), Ok("/x".to_string()));
    // a bare name lies in the working directory itself
    let search = PathDir::parse_base_dir("root.hurl", "/a");
    assert_eq!(drive(search, &[]), Ok("/a/".to_string()));
}

#[test]
fn a_root_file_without_a_directory_is_refused() {
    let search = PathDir::parse_base_dir("/", "/a");
    assert_eq!(drive(search, &[]), Err(PathError::Parentless));
    let search = BaseDirSearch::over(vec![], None);
    assert_eq!(drive(search, &[]), Err(PathError::Parentless));
    assert_eq!(
        PathError::Parentless.message(),
        "root hurlin file passed was `/` or otherwise parentless"
    );
}
