use docker_volume_backup::commands::plan_restore_from_archive;
use docker_volume_backup::errors::{ArchiveReadError, Error};
use docker_volume_backup::planner::{
    mount_volumes, plan_backup, plan_restore, AccessMode, Invocation, MountSpec, IMAGE,
    INPUT_ROOT, OUTPUT_ROOT, RUNTIME,
};
use docker_volume_backup::resolver::ResolvedPath;
use flate2::write::GzEncoder;
use flate2::Compression;
use std::io::Write;
use tar::{Builder, EntryType, Header};

fn at_path(parent_dir: &str, filename: &str) -> ResolvedPath {
    ResolvedPath { parent_dir: parent_dir.to_string(), filename: filename.to_string() }
}

fn names(names: &[&str]) -> Vec<String> {
    names.iter().map(|name| name.to_string()).collect()
}

fn backup_archive(entries: &[&str]) -> Vec<u8> {
    let mut builder = Builder::new(Vec::new());
    for entry in entries {
        let mut header = Header::new_gnu();
        header.as_mut_bytes()[..entry.len()].copy_from_slice(entry.as_bytes());
        header.set_entry_type(EntryType::Regular);
        header.set_mode(0o644);
        header.set_size(0);
        header.set_cksum();
        builder.append(&header, &b""[..]).unwrap();
    }
    let mut encoder = GzEncoder::new(Vec::new(), Compression::default());
    encoder.write_all(&builder.into_inner().unwrap()).unwrap();
    encoder.finish().unwrap()
}

#[test]
fn the_constants_are_those_of_the_runtime() {
    assert_eq!(RUNTIME, "docker");
    assert_eq!(IMAGE, "alpine");
    assert_eq!(INPUT_ROOT, "/input");
    assert_eq!(OUTPUT_ROOT, "/output");
}

#[test]
fn backup_mounts_the_volumes_in_the_order_given() {
    let plan = plan_backup(&names(&["a", "b"]), &at_path("/tmp", "out.tar.gz"));
    assert_eq!(plan.program, "docker");
    assert_eq!(
        plan.args,
        vec![
            "run",
            "--rm",
            "--volume=/tmp:/output",
            "--volume=a:/input/a:ro",
            "--volume=b:/input/b:ro",
            "alpine",
            "tar",
            "-czf",
            "/output/out.tar.gz",
            "-C",
            "/input",
            ".",
        ]
    );
}

#[test]
fn backup_keeps_the_order_whatever_the_names() {
    let plan = plan_backup(&names(&["b", "a", "b"]), &at_path("/", "x"));
    assert_eq!(
        plan.args[2..6],
        [
            "--volume=/:/output",
            "--volume=b:/input/b:ro",
            "--volume=a:/input/a:ro",
            "--volume=b:/input/b:ro",
        ]
    );
    assert_eq!(plan.args[9], "/output/x");
    assert_eq!(plan.args.len(), 13);
}

#[test]
fn restore_mounts_the_volumes_to_be_written() {
    let plan = plan_restore(&names(&["vol1", "vol2"]), &at_path("/srv/backups", "out.tar.gz"));
    assert_eq!(
        plan,
        Invocation {
            program: "docker".to_string(),
            args: names(&[
                "run",
                "--rm",
                "--volume=/srv/backups:/input",
                "--volume=vol1:/output/vol1:rw",
                "--volume=vol2:/output/vol2:rw",
                "alpine",
                "tar",
                "-xzf",
                "/input/out.tar.gz",
                "-C",
                "/output",
            ]),
        }
    );
}

#[test]
fn a_plan_without_volumes_mounts_the_host_directory_alone() {
    let backup = plan_backup(&Vec::new(), &at_path("/tmp", "o"));
    assert_eq!(
        backup.args,
        vec![
            "run",
            "--rm",
            "--volume=/tmp:/output",
            "alpine",
            "tar",
            "-czf",
            "/output/o",
            "-C",
            "/input",
            ".",
        ]
    );
    let restore = plan_restore(&Vec::new(), &at_path("/tmp", "o"));
    assert_eq!(
        restore.args,
        vec![
            "run",
            "--rm",
            "--volume=/tmp:/input",
            "alpine",
            "tar",
            "-xzf",
            "/input/o",
            "-C",
            "/output",
        ]
    );
}

#[test]
fn a_mount_is_named_after_its_volume() {
    let mount = MountSpec::for_volume("data", "/input", AccessMode::ReadOnly);
    assert_eq!(
        mount,
        MountSpec {
            volume_name: "data".to_string(),
            container_path: "/input/data".to_string(),
            access_mode: AccessMode::ReadOnly,
        }
    );
    assert_eq!(mount.flag(), "--volume=data:/input/data:ro");
    assert_eq!(
        MountSpec::for_volume("data", "/output", AccessMode::ReadWrite).flag(),
        "--volume=data:/output/data:rw"
    );
}

#[test]
fn access_modes_are_spelled_as_the_runtime_reads_them() {
    assert_eq!(AccessMode::ReadOnly.suffix(), "ro");
    assert_eq!(AccessMode::ReadWrite.suffix(), "rw");
}

#[test]
fn mounts_follow_the_names() {
    let mounts = mount_volumes(&names(&["z", "a", "m"]), "/input", AccessMode::ReadOnly);
    let order: Vec<&str> = mounts.iter().map(|mount| mount.volume_name.as_str()).collect();
    assert_eq!(order, vec!["z", "a", "m"]);
    assert_eq!(mounts[1].container_path, "/input/a");
    assert_eq!(mount_volumes(&Vec::new(), "/input", AccessMode::ReadOnly), Vec::new());
}

#[test]
fn restore_from_an_archive_mounts_the_volumes_found_in_it() {
    let archive = backup_archive(&["./vol1/a", "./vol1/b/c", "./vol2/d"]);
    let plan = plan_restore_from_archive(Some(&archive), &at_path("/tmp", "out.tar.gz")).unwrap();
    assert_eq!(plan, plan_restore(&names(&["vol1", "vol2"]), &at_path("/tmp", "out.tar.gz")));
    assert_eq!(plan.args[3], "--volume=vol1:/output/vol1:rw");
    assert_eq!(plan.args[4], "--volume=vol2:/output/vol2:rw");
}

#[test]
fn restore_from_a_broken_archive_fails_before_planning() {
    assert_eq!(
        plan_restore_from_archive(Some(b"broken"), &at_path("/tmp", "out.tar.gz")),
        Err(Error::ArchiveRead(ArchiveReadError::Malformed))
    );
}

#[test]
fn restore_from_an_archive_that_could_not_be_read_fails() {
    assert_eq!(
        plan_restore_from_archive(None, &at_path("/tmp", "out.tar.gz")),
        Err(Error::ArchiveRead(ArchiveReadError::Unreadable))
    );
}
