use docker_volume_backup::errors::PathResolutionError;
use docker_volume_backup::resolver::{
    resolve_path, resolve_step, Canonical, ResolveAction, ResolveEvent, ResolvedPath,
};

fn resolved(parent_dir: &str, filename: &str) -> ResolvedPath {
    ResolvedPath { parent_dir: parent_dir.to_string(), filename: filename.to_string() }
}

fn joined(path: &ResolvedPath) -> String {
    if path.parent_dir == "/" {
        format!("/{}", path.filename)
    } else {
        format!("{}/{}", path.parent_dir, path.filename)
    }
}

#[test]
fn a_canonical_path_splits_at_its_last_separator() {
    assert_eq!(resolve_path("/tmp/out.tar.gz"), Ok(resolved("/tmp", "out.tar.gz")));
    assert_eq!(resolve_path("/home/user/backups/x"), Ok(resolved("/home/user/backups", "x")));
}

#[test]
fn a_file_under_the_root_has_the_root_as_parent() {
    assert_eq!(resolve_path("/out.tar.gz"), Ok(resolved("/", "out.tar.gz")));
}

#[test]
fn the_root_has_no_parent() {
    assert_eq!(resolve_path("/"), Err(PathResolutionError::NoParent));
}

#[test]
fn the_parts_join_into_the_canonical_path() {
    for path in ["/tmp/out.tar.gz", "/a", "/a/b/c/d", "/ä/ö ü/…", "/a/.b/..c/d.", "/a/..."] {
        assert_eq!(joined(&resolve_path(path).unwrap()), path);
    }
}

#[test]
fn text_that_is_not_canonical_is_refused() {
    for path in [
        "", "relative", "a/b", "./a", "//", "//a", "/a/", "/a//b", "/a/./b", "/a/../b", "/a/.",
        "/a/..", "/.", "/..", "/./a", "/../a",
    ] {
        assert_eq!(resolve_path(path), Err(PathResolutionError::NotCanonical), "{:?}", path);
    }
}

#[test]
fn dots_inside_a_name_are_part_of_the_name() {
    assert_eq!(resolve_path("/.a"), Ok(resolved("/", ".a")));
    assert_eq!(resolve_path("/a./..b"), Ok(resolved("/a.", "..b")));
    assert_eq!(resolve_path("/.../...."), Ok(resolved("/...", "....")));
}

#[test]
fn resolution_probes_only_where_a_file_may_be_created() {
    assert_eq!(resolve_step(true, ResolveEvent::Started), ResolveAction::Probe);
    assert_eq!(resolve_step(false, ResolveEvent::Started), ResolveAction::Canonicalize);
}

#[test]
fn resolution_creates_only_what_is_missing() {
    assert_eq!(
        resolve_step(true, ResolveEvent::Probed { exists: false }),
        ResolveAction::CreatePlaceholder
    );
    assert_eq!(
        resolve_step(true, ResolveEvent::Probed { exists: true }),
        ResolveAction::Canonicalize
    );
}

#[test]
fn resolution_goes_on_after_creating_and_stops_if_it_cannot() {
    assert_eq!(
        resolve_step(true, ResolveEvent::Created { done: true }),
        ResolveAction::Canonicalize
    );
    assert_eq!(
        resolve_step(true, ResolveEvent::Created { done: false }),
        ResolveAction::Finish(Err(PathResolutionError::CannotCreate))
    );
}

#[test]
fn resolution_ends_with_the_split_canonical_path() {
    let event = ResolveEvent::Canonicalized(Canonical::Text("/tmp/out.tar.gz".to_string()));
    assert_eq!(
        resolve_step(true, event),
        ResolveAction::Finish(Ok(resolved("/tmp", "out.tar.gz")))
    );
    let root = ResolveEvent::Canonicalized(Canonical::Text("/".to_string()));
    assert_eq!(
        resolve_step(false, root),
        ResolveAction::Finish(Err(PathResolutionError::NoParent))
    );
}

#[test]
fn resolution_fails_for_a_missing_or_unreadable_canonical_path() {
    assert_eq!(
        resolve_step(false, ResolveEvent::Canonicalized(Canonical::Missing)),
        ResolveAction::Finish(Err(PathResolutionError::Unresolvable))
    );
    assert_eq!(
        resolve_step(false, ResolveEvent::Canonicalized(Canonical::NotText)),
        ResolveAction::Finish(Err(PathResolutionError::NotText))
    );
    assert_eq!(
        resolve_step(false, ResolveEvent::Canonicalized(Canonical::Text("x".to_string()))),
        ResolveAction::Finish(Err(PathResolutionError::NotCanonical))
    );
}

/// Runs the steps against a pretended file system that holds `existing`.
fn walk(path: &str, create_if_missing: bool, existing: &mut Vec<String>) -> (
    Result<ResolvedPath, PathResolutionError>,
    usize,
) {
    let mut created = 0;
    let mut action = resolve_step(create_if_missing, ResolveEvent::Started);
    loop {
        let event = match action {
            ResolveAction::Probe => {
                ResolveEvent::Probed { exists: existing.iter().any(|known| known == path) }
            }
            ResolveAction::CreatePlaceholder => {
                existing.push(path.to_string());
                created += 1;
                ResolveEvent::Created { done: true }
            }
            ResolveAction::Canonicalize => {
                if existing.iter().any(|known| known == path) {
                    ResolveEvent::Canonicalized(Canonical::Text(path.to_string()))
                } else {
                    ResolveEvent::Canonicalized(Canonical::Missing)
                }
            }
            ResolveAction::Finish(result) => return (result, created),
        };
        action = resolve_step(create_if_missing, event);
    }
}

#[test]
fn resolving_twice_creates_once_and_gives_the_same() {
    let mut files = Vec::new();
    let first = walk("/tmp/out.tar.gz", true, &mut files);
    let second = walk("/tmp/out.tar.gz", true, &mut files);
    assert_eq!(first, (Ok(resolved("/tmp", "out.tar.gz")), 1));
    assert_eq!(second, (Ok(resolved("/tmp", "out.tar.gz")), 0));
    assert_eq!(files, vec!["/tmp/out.tar.gz"]);
}

#[test]
fn resolving_a_missing_file_without_creating_fails() {
    let mut files = Vec::new();
    assert_eq!(walk("/tmp/none", false, &mut files), (Err(PathResolutionError::Unresolvable), 0));
    assert_eq!(files, Vec::<String>::new());
}
