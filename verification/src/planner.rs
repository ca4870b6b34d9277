//! Planning the run of the container runtime: which volumes are mounted
//! where, and which command archives or unpacks them.
//!
//! A backup mounts every volume read-only under `/input` and the directory
//! of the target file at `/output`, and packs `/input` into the target. A
//! restore mounts the directory of the source file at `/input` and every
//! volume read-write under `/output`, and unpacks the source into `/output`.
//! Nothing is started here: a plan is a list of arguments.

use crate::resolver::ResolvedPath;
use crate::text::{lemma_texts_push, texts};
use vstd::prelude::*;
use vstd::string::*;

verus! {

/// The program that runs containers.
pub const RUNTIME: &'static str = "docker";

/// The image whose `tar` does the work.
pub const IMAGE: &'static str = "alpine";

/// Where the data to be read is mounted in the container.
pub const INPUT_ROOT: &'static str = "/input";

/// Where the data to be written is mounted in the container.
pub const OUTPUT_ROOT: &'static str = "/output";

/// Whether the container may write to a mount.
#[derive(Clone, Copy, Debug, PartialEq, Eq, Structural)]
pub enum AccessMode {
    /// The container can only read.
    ReadOnly,
    /// The container can read and write.
    ReadWrite,
}

impl AccessMode {
    /// The mode as the runtime spells it.
    pub open spec fn suffix_text(self) -> Seq<char> {
        match self {
            AccessMode::ReadOnly => "ro"@,
            AccessMode::ReadWrite => "rw"@,
        }
    }

    /// The mode as the runtime spells it.
    pub fn suffix(self) -> (suffix: &'static str)
        ensures
            suffix@ == self.suffix_text(),
    {
        match self {
            AccessMode::ReadOnly => "ro",
            AccessMode::ReadWrite => "rw",
        }
    }
}

/// One volume and the place where the container sees it.
#[derive(Clone, Debug, PartialEq, Eq)]
pub struct MountSpec {
    /// The name of the volume.
    pub volume_name: String,
    /// The path of the volume inside the container.
    pub container_path: String,
    /// Whether the container may write to the volume.
    pub access_mode: AccessMode,
}

/// A [`MountSpec`] as plain values.
pub ghost struct MountSpecView {
    pub volume_name: Seq<char>,
    pub container_path: Seq<char>,
    pub access_mode: AccessMode,
}

impl View for MountSpec {
    type V = MountSpecView;

    open spec fn view(&self) -> MountSpecView {
        MountSpecView {
            volume_name: self.volume_name@,
            container_path: self.container_path@,
            access_mode: self.access_mode,
        }
    }
}

/// The mount of `volume` under `root`, at the path named after the volume.
pub open spec fn volume_mount(volume: Seq<char>, root: Seq<char>, mode: AccessMode)
    -> MountSpecView {
    MountSpecView { volume_name: volume, container_path: root + "/"@ + volume, access_mode: mode }
}

/// The mounts of `volumes` under `root`, in the order of `volumes`.
pub open spec fn volume_mounts(volumes: Seq<Seq<char>>, root: Seq<char>, mode: AccessMode) -> Seq<
    MountSpecView,
> {
    volumes.map_values(|volume: Seq<char>| volume_mount(volume, root, mode))
}

/// The argument that asks the runtime for a volume mount.
pub open spec fn mount_flag(mount: MountSpecView) -> Seq<char> {
    "--volume="@ + mount.volume_name + ":"@ + mount.container_path + ":"@
        + mount.access_mode.suffix_text()
}

/// The argument that asks the runtime to mount the host directory `dir` at
/// `root`.
pub open spec fn host_flag(dir: Seq<char>, root: Seq<char>) -> Seq<char> {
    "--volume="@ + dir + ":"@ + root
}

/// The arguments of a backup of `volumes` into the file `name` of the host
/// directory `dir`.
pub open spec fn backup_args(volumes: Seq<Seq<char>>, dir: Seq<char>, name: Seq<char>) -> Seq<
    Seq<char>,
> {
    seq!["run"@, "--rm"@, host_flag(dir, OUTPUT_ROOT@)] + volume_mounts(
        volumes,
        INPUT_ROOT@,
        AccessMode::ReadOnly,
    ).map_values(|mount: MountSpecView| mount_flag(mount)) + seq![
        IMAGE@,
        "tar"@,
        "-czf"@,
        OUTPUT_ROOT@ + "/"@ + name,
        "-C"@,
        INPUT_ROOT@,
        "."@,
    ]
}

/// The arguments of a restore of `volumes` from the file `name` of the host
/// directory `dir`.
pub open spec fn restore_args(volumes: Seq<Seq<char>>, dir: Seq<char>, name: Seq<char>) -> Seq<
    Seq<char>,
> {
    seq!["run"@, "--rm"@, host_flag(dir, INPUT_ROOT@)] + volume_mounts(
        volumes,
        OUTPUT_ROOT@,
        AccessMode::ReadWrite,
    ).map_values(|mount: MountSpecView| mount_flag(mount)) + seq![
        IMAGE@,
        "tar"@,
        "-xzf"@,
        INPUT_ROOT@ + "/"@ + name,
        "-C"@,
        OUTPUT_ROOT@,
    ]
}

/// In the arguments of a backup the host directory is mounted first, and the
/// volumes follow in the order in which they were named.
pub proof fn lemma_backup_mount_order(volumes: Seq<Seq<char>>, dir: Seq<char>, name: Seq<char>)
    ensures
        backup_args(volumes, dir, name).len() == volumes.len() + 10,
        backup_args(volumes, dir, name)[2] == host_flag(dir, OUTPUT_ROOT@),
        forall|i: int|
            0 <= i < volumes.len() ==> #[trigger] backup_args(volumes, dir, name)[3 + i]
                == mount_flag(volume_mount(volumes[i], INPUT_ROOT@, AccessMode::ReadOnly)),
{
}

/// In the arguments of a restore the host directory is mounted first, and
/// the volumes follow in the order in which they were named.
pub proof fn lemma_restore_mount_order(volumes: Seq<Seq<char>>, dir: Seq<char>, name: Seq<char>)
    ensures
        restore_args(volumes, dir, name).len() == volumes.len() + 9,
        restore_args(volumes, dir, name)[2] == host_flag(dir, INPUT_ROOT@),
        forall|i: int|
            0 <= i < volumes.len() ==> #[trigger] restore_args(volumes, dir, name)[3 + i]
                == mount_flag(volume_mount(volumes[i], OUTPUT_ROOT@, AccessMode::ReadWrite)),
{
}

impl MountSpec {
    /// The mount of `volume_name` under `root`.
    pub fn for_volume(volume_name: &str, root: &str, access_mode: AccessMode) -> (mount: MountSpec)
        ensures
            mount@ == volume_mount(volume_name@, root@, access_mode),
    {
        let mut container_path = root.to_owned();
        container_path.append("/");
        container_path.append(volume_name);
        MountSpec { volume_name: volume_name.to_owned(), container_path, access_mode }
    }

    /// The argument that asks the runtime for this mount.
    pub fn flag(&self) -> (flag: String)
        ensures
            flag@ == mount_flag(self@),
    {
        let mut flag = "--volume=".to_owned();
        flag.append(self.volume_name.as_str());
        flag.append(":");
        flag.append(self.container_path.as_str());
        flag.append(":");
        flag.append(self.access_mode.suffix());
        flag
    }
}

/// The views of mounts, in order.
pub open spec fn mount_views(mounts: Seq<MountSpec>) -> Seq<MountSpecView> {
    mounts.map_values(|mount: MountSpec| mount@)
}

/// The mounts of the named volumes under `root`, one for each name and in
/// the order of the names.
pub fn mount_volumes(volume_names: &Vec<String>, root: &str, access_mode: AccessMode) -> (mounts:
    Vec<MountSpec>)
    ensures
        mount_views(mounts@) == volume_mounts(texts(volume_names@), root@, access_mode),
{
    let mut mounts: Vec<MountSpec> = Vec::new();
    for i in 0..volume_names.len()
        invariant
            mounts@.len() == i,
            forall|j: int|
                0 <= j < i ==> (#[trigger] mounts@[j])@ == volume_mount(
                    volume_names@[j]@,
                    root@,
                    access_mode,
                ),
    {
        mounts.push(MountSpec::for_volume(volume_names[i].as_str(), root, access_mode));
    }
    proof {
        assert(mount_views(mounts@) =~= volume_mounts(texts(volume_names@), root@, access_mode));
    }
    mounts
}

/// The program to start and the arguments to start it with.
#[derive(Clone, Debug, PartialEq, Eq)]
pub struct Invocation {
    /// The program that runs containers.
    pub program: String,
    /// The arguments, in order.
    pub args: Vec<String>,
}

/// The argument that mounts the host directory `dir` at `root`.
fn host_mount_flag(dir: &str, root: &str) -> (flag: String)
    ensures
        flag@ == host_flag(dir@, root@),
{
    let mut flag = "--volume=".to_owned();
    flag.append(dir);
    flag.append(":");
    flag.append(root);
    flag
}

/// The path of the file `name` under `root`.
fn path_under(root: &str, name: &str) -> (path: String)
    ensures
        path@ == root@ + "/"@ + name@,
{
    let mut path = root.to_owned();
    path.append("/");
    path.append(name);
    path
}

/// Adds one argument.
fn push_arg(args: &mut Vec<String>, arg: &str)
    ensures
        texts(final(args)@) == texts(old(args)@).push(arg@),
{
    let owned = arg.to_owned();
    proof {
        lemma_texts_push(args@, owned);
    }
    args.push(owned);
}

/// Adds the flag of every mount, in order.
fn push_mount_flags(args: &mut Vec<String>, mounts: &Vec<MountSpec>)
    ensures
        texts(final(args)@) == texts(old(args)@) + mount_views(mounts@).map_values(
            |mount: MountSpecView| mount_flag(mount),
        ),
{
    let ghost flags = mount_views(mounts@).map_values(|mount: MountSpecView| mount_flag(mount));
    proof {
        assert(texts(args@) =~= texts(old(args)@) + flags.take(0));
    }
    for i in 0..mounts.len()
        invariant
            flags == mount_views(mounts@).map_values(|mount: MountSpecView| mount_flag(mount)),
            texts(args@) == texts(old(args)@) + flags.take(i as int),
    {
        let flag = mounts[i].flag();
        proof {
            lemma_texts_push(args@, flag);
            assert(flags.take(i + 1) =~= flags.take(i as int).push(flag@));
            assert((texts(old(args)@) + flags.take(i as int)).push(flag@) =~= texts(old(args)@)
                + flags.take(i + 1));
        }
        args.push(flag);
    }
    proof {
        assert(flags.take(mounts@.len() as int) =~= flags);
    }
}

/// Plans the backup of the named volumes into the target file.
///
/// The volumes are mounted in the order in which they are named, and nothing
/// is left out, added or reordered.
pub fn plan_backup(volume_names: &Vec<String>, target: &ResolvedPath) -> (plan: Invocation)
    ensures
        plan.program@ == RUNTIME@,
        texts(plan.args@) == backup_args(
            texts(volume_names@),
            target.parent_dir@,
            target.filename@,
        ),
{
    let mounts = mount_volumes(volume_names, INPUT_ROOT, AccessMode::ReadOnly);
    let mut args: Vec<String> = Vec::new();
    proof {
        assert(texts(args@) =~= Seq::<Seq<char>>::empty());
    }
    push_arg(&mut args, "run");
    push_arg(&mut args, "--rm");
    let host = host_mount_flag(target.parent_dir.as_str(), OUTPUT_ROOT);
    push_arg(&mut args, host.as_str());
    push_mount_flags(&mut args, &mounts);
    push_arg(&mut args, IMAGE);
    push_arg(&mut args, "tar");
    push_arg(&mut args, "-czf");
    let archive = path_under(OUTPUT_ROOT, target.filename.as_str());
    push_arg(&mut args, archive.as_str());
    push_arg(&mut args, "-C");
    push_arg(&mut args, INPUT_ROOT);
    push_arg(&mut args, ".");
    proof {
        assert(texts(args@) =~= backup_args(
            texts(volume_names@),
            target.parent_dir@,
            target.filename@,
        ));
    }
    Invocation { program: RUNTIME.to_owned(), args }
}

/// Plans the restore of the named volumes from the source file.
///
/// The volumes are mounted in the order in which they are named, and nothing
/// is left out, added or reordered.
pub fn plan_restore(volume_names: &Vec<String>, source: &ResolvedPath) -> (plan: Invocation)
    ensures
        plan.program@ == RUNTIME@,
        texts(plan.args@) == restore_args(
            texts(volume_names@),
            source.parent_dir@,
            source.filename@,
        ),
{
    let mounts = mount_volumes(volume_names, OUTPUT_ROOT, AccessMode::ReadWrite);
    let mut args: Vec<String> = Vec::new();
    proof {
        assert(texts(args@) =~= Seq::<Seq<char>>::empty());
    }
    push_arg(&mut args, "run");
    push_arg(&mut args, "--rm");
    let host = host_mount_flag(source.parent_dir.as_str(), INPUT_ROOT);
    push_arg(&mut args, host.as_str());
    push_mount_flags(&mut args, &mounts);
    push_arg(&mut args, IMAGE);
    push_arg(&mut args, "tar");
    push_arg(&mut args, "-xzf");
    let archive = path_under(INPUT_ROOT, source.filename.as_str());
    push_arg(&mut args, archive.as_str());
    push_arg(&mut args, "-C");
    push_arg(&mut args, OUTPUT_ROOT);
    proof {
        assert(texts(args@) =~= restore_args(
            texts(volume_names@),
            source.parent_dir@,
            source.filename@,
        ));
    }
    Invocation { program: RUNTIME.to_owned(), args }
}

} // verus!
