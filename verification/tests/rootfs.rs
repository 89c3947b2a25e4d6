//! Verified root filesystems, and the launcher.

use aios::process::facts::{FileFacts, PathReport};
use aios::process::launch::{
    LaunchRequest, broker_arguments, is_cgroup_procs, is_launchable, parse_launch,
};
use aios::process::rootfs::{
    BuildStep, MAX_ROOT_FILESYSTEM_FILE_BYTES, RootFilesystemDigest, TreeEntry, TreeWalk,
    VerifiedRootFilesystem, build_minimal_root_filesystem,
};
use aios::process::ProcessAdapterError;

fn facts(mode: u32, inode: u64) -> FileFacts {
    FileFacts {
        symlink: false,
        directory: false,
        regular: false,
        mode,
        device: 1,
        inode,
        length: 0,
        links: 1,
    }
}

fn directory(mode: u32, inode: u64) -> Option<FileFacts> {
    Some(FileFacts {
        directory: true,
        ..facts(mode, inode)
    })
}

fn file(mode: u32, inode: u64) -> Option<FileFacts> {
    Some(FileFacts {
        regular: true,
        ..facts(mode, inode)
    })
}

fn link(inode: u64) -> Option<FileFacts> {
    Some(FileFacts {
        symlink: true,
        ..facts(0o777, inode)
    })
}

fn report(path: &str, found: Option<FileFacts>) -> PathReport {
    PathReport {
        canonical: Some(path.as_bytes().to_vec()),
        entry: found,
        target: found,
    }
}

fn tree_file(path: &str, contents: &[u8], inode: u64) -> TreeEntry {
    let found = Some(FileFacts {
        regular: true,
        length: contents.len() as u64,
        ..facts(0o555, inode)
    });
    TreeEntry {
        path: path.as_bytes().to_vec(),
        facts: found,
        opened: found,
        contents: Some(contents.to_vec()),
    }
}

fn tree_directory(path: &str, inode: u64) -> TreeEntry {
    TreeEntry {
        path: path.as_bytes().to_vec(),
        facts: directory(0o555, inode),
        opened: None,
        contents: None,
    }
}

fn tree(tool: &[u8]) -> Vec<TreeEntry> {
    vec![
        tree_directory("bin", 2),
        tree_file("bin/tool", tool, 3),
        tree_directory("proc", 4),
        tree_directory("dev", 5),
        tree_directory("tmp", 6),
        tree_directory("workspace", 7),
    ]
}

fn root() -> PathReport {
    report("/srv/root", directory(0o555, 1))
}

fn mounts() -> [Option<FileFacts>; 4] {
    [
        directory(0o555, 4),
        directory(0o555, 5),
        directory(0o555, 6),
        directory(0o555, 7),
    ]
}

fn measure(entries: &Vec<TreeEntry>) -> Result<RootFilesystemDigest, ProcessAdapterError> {
    RootFilesystemDigest::measure(b"/srv/root", &root(), entries)
}

#[test]
fn digests_are_canonical_and_detect_content_changes() {
    let entries = tree(b"verified-tool-v1");
    let digest = measure(&entries).ok().expect("measure rootfs");
    let mut shuffled = tree(b"verified-tool-v1");
    shuffled.reverse();
    assert!(digest.same_as(&measure(&shuffled).ok().expect("remeasure rootfs")));
    let encoded = digest.display();
    assert_eq!(encoded.len(), 64);
    assert!(
        RootFilesystemDigest::parse(&encoded)
            .ok()
            .expect("parse digest")
            .same_as(&digest)
    );
    assert!(RootFilesystemDigest::parse(&"A".repeat(64)).is_err());

    let verified =
        VerifiedRootFilesystem::open(b"/srv/root", digest, &root(), &mounts(), &entries)
            .ok()
            .expect("verify rootfs");
    assert_eq!(verified.directory(), b"/srv/root");
    assert_eq!(verified.validate(root().target, &entries), Ok(()));
    assert_eq!(
        verified.validate(root().target, &tree(b"modified-tool-v1")),
        Err(ProcessAdapterError::InvalidSandbox)
    );
    assert_eq!(
        verified.validate(directory(0o555, 99), &entries),
        Err(ProcessAdapterError::InvalidSandbox)
    );
    assert_eq!(
        verified.validate(directory(0o755, 1), &entries),
        Err(ProcessAdapterError::InvalidSandbox)
    );
}

#[test]
fn the_digest_is_that_of_the_published_format() {
    let empty = RootFilesystemDigest::measure(b"/srv/root", &root(), &Vec::new())
        .ok()
        .expect("measure empty rootfs");
    let with_tool = measure(&vec![tree_file("a", b"", 3)])
        .ok()
        .expect("measure one file");
    assert!(!empty.same_as(&with_tool));
    assert_eq!(empty.display(), EMPTY_TREE);
    let copied = RootFilesystemDigest::from_bytes(*empty.as_bytes());
    assert!(copied.same_as(&empty));
}

const EMPTY_TREE: &str = "7eb94d83f6c6a572a58bb4c5085b1608cd4dd22134ee7a3d4d15e25964e18c75";

#[test]
fn writable_symlinked_and_linked_trees_are_rejected() {
    for broken in [directory(0o755, 1), link(1), None] {
        assert!(
            RootFilesystemDigest::measure(
                b"/srv/root",
                &report("/srv/root", broken),
                &tree(b"x")
            )
            .is_err()
        );
    }
    let mut symlinked = tree(b"x");
    symlinked.push(TreeEntry {
        path: b"bin/escape".to_vec(),
        facts: link(9),
        opened: None,
        contents: None,
    });
    assert!(measure(&symlinked).is_err());

    let mut hard_linked = tree(b"x");
    let mut alias = tree_file("bin/alias", b"x", 9);
    alias.facts = alias.facts.map(|found| FileFacts { links: 2, ..found });
    alias.opened = alias.facts;
    hard_linked.push(alias);
    assert!(measure(&hard_linked).is_err());

    let mut oversized = tree(b"x");
    let mut large = tree_file("bin/large", b"x", 9);
    large.facts = large.facts.map(|found| FileFacts {
        length: MAX_ROOT_FILESYSTEM_FILE_BYTES + 1,
        ..found
    });
    oversized.push(large);
    assert!(measure(&oversized).is_err());
}

#[test]
fn missing_mount_points_are_rejected() {
    let entries = tree(b"x");
    let digest = measure(&entries).ok().expect("measure rootfs");
    let mut incomplete = mounts();
    incomplete[0] = None;
    assert!(
        VerifiedRootFilesystem::open(b"/srv/root", digest, &root(), &incomplete, &entries)
            .is_err()
    );
}

#[test]
fn walks_are_bounded() {
    let mut walk = TreeWalk::new();
    assert_eq!(walk.take_in(b"bin", directory(0o555, 2)), Ok(true));
    assert_eq!(walk.take_in(b"bin/tool", file(0o555, 3)), Ok(false));
    assert!(walk.take_in(b"bin/link", link(4)).is_err());
    assert!(
        walk.take_in(&vec![b'a'; 4_097], file(0o555, 3))
            .is_err()
    );
}

#[test]
fn minimal_roots_are_built_step_by_step_and_sealed() {
    let source = report("/usr/bin/busybox", file(0o755, 20));
    let build = build_minimal_root_filesystem(
        b"/usr/bin/busybox",
        b"/srv/new-root",
        &source,
    )
    .ok()
    .expect("plan root");
    let steps = build.steps();
    assert!(
        matches!(&steps[0], BuildStep::CreateDirectory { path } if path == b"/srv/new-root")
    );
    assert!(matches!(
        steps.last(),
        Some(BuildStep::Seal { path }) if path == b"/srv/new-root"
    ));
    assert_eq!(build.check_copy(file(0o755, 20), 0), Ok(()));
    assert!(build.check_copy(file(0o755, 21), 0).is_err());
    assert!(build.check_copy(file(0o755, 20), 1).is_err());
    assert!(matches!(
        build_minimal_root_filesystem(b"/usr/bin/busybox", b"/", &source),
        Err(ProcessAdapterError::InvalidSandbox)
    ));
}

fn minimal_root(contents: &[u8], first_inode: u64) -> Vec<TreeEntry> {
    vec![
        tree_directory("bin", first_inode),
        tree_file("bin/busybox", contents, first_inode + 1),
        tree_directory("dev", first_inode + 2),
        tree_directory("proc", first_inode + 3),
        tree_directory("tmp", first_inode + 4),
        tree_directory("workspace", first_inode + 5),
    ]
}

#[test]
fn minimal_roots_measure_by_their_executable_alone() {
    let first = minimal_root(b"busybox", 2);
    let mut second = minimal_root(b"busybox", 200);
    second.reverse();
    let digest = measure(&first).ok().expect("measure root");
    let elsewhere = report("/srv/elsewhere", directory(0o555, 100));
    let again = RootFilesystemDigest::measure(b"/srv/elsewhere", &elsewhere, &second)
        .ok()
        .expect("measure root");
    assert!(digest.same_as(&again));
    assert!(
        VerifiedRootFilesystem::open(b"/srv/elsewhere", digest, &elsewhere, &mounts(), &second)
            .is_ok()
    );
    let other = measure(&minimal_root(b"busyboy", 2)).ok().expect("measure root");
    assert!(!digest.same_as(&other));
}

#[test]
fn names_kinds_and_modes_change_the_digest() {
    let digest = measure(&tree(b"tool")).ok().expect("measure rootfs");
    let changed = |entries: &Vec<TreeEntry>| {
        !measure(entries).ok().expect("measure rootfs").same_as(&digest)
    };
    let mut renamed = tree(b"tool");
    renamed[1].path = b"bin/took".to_vec();
    assert!(changed(&renamed));
    let mut other_kind = tree(b"tool");
    other_kind[5] = tree_file("workspace", b"", 7);
    assert!(changed(&other_kind));
    let mut other_mode = tree(b"tool");
    other_mode[2].facts = directory(0o500, 4);
    assert!(changed(&other_mode));
    let shut = report("/srv/root", directory(0o500, 1));
    let other_root = RootFilesystemDigest::measure(b"/srv/root", &shut, &tree(b"tool"))
        .ok()
        .expect("measure rootfs");
    assert!(!digest.same_as(&other_root));
}

// ------------------------------------------------------------------ launcher

fn request(mounts: Option<Vec<Vec<u8>>>) -> LaunchRequest {
    LaunchRequest {
        cgroup_procs: b"/sys/fs/cgroup/aios/task/cgroup.procs".to_vec(),
        device: 1,
        inode: 51,
        executable: b"/usr/bin/bwrap".to_vec(),
        mounts,
        arguments: vec![
            b"--unshare-all".to_vec(),
            b"--".to_vec(),
            b"/bin/tool".to_vec(),
        ],
    }
}

#[test]
fn launch_requests_read_back() {
    for mounts in [
        None,
        Some(Vec::new()),
        Some(vec![b"/opt/data".to_vec(), b"/srv/more".to_vec()]),
    ] {
        let sent = request(mounts);
        let read = parse_launch(&sent.command_line()).expect("read request");
        assert_eq!(read.cgroup_procs, sent.cgroup_procs);
        assert_eq!(read.device, 1);
        assert_eq!(read.inode, 51);
        assert_eq!(read.executable, sent.executable);
        assert_eq!(read.mounts, sent.mounts);
        assert_eq!(read.arguments, sent.arguments);
    }
    assert!(parse_launch(&Vec::new()).is_none());
    assert!(
        parse_launch(&vec![
            b"/x/cgroup.procs".to_vec(),
            b"one".to_vec(),
            b"2".to_vec(),
            b"/usr/bin/bwrap".to_vec(),
        ])
        .is_none()
    );
}

#[test]
fn descriptors_are_mounted_before_the_delimiter() {
    let sent = request(Some(vec![b"/opt/data".to_vec()]));
    let arguments = broker_arguments(
        &sent.arguments,
        &vec![b"/opt/data".to_vec()],
        &vec![7, 8],
    )
    .expect("usable descriptors");
    let expected: Vec<Vec<u8>> = [
        "--unshare-all",
        "--seccomp",
        "7",
        "--ro-bind-fd",
        "8",
        "/opt/data",
        "--",
        "/bin/tool",
    ]
    .iter()
    .map(|word| word.as_bytes().to_vec())
    .collect();
    assert_eq!(arguments, expected);
    assert!(
        broker_arguments(&sent.arguments, &vec![b"/opt/data".to_vec()], &vec![2, 8]).is_none()
    );
    assert!(broker_arguments(&sent.arguments, &Vec::new(), &vec![7, 8]).is_none());
}

#[test]
fn launchers_enter_only_the_expected_cgroup() {
    let path = b"/sys/fs/cgroup/aios/task/cgroup.procs";
    assert!(is_cgroup_procs(
        path,
        file(0o644, 60),
        directory(0o755, 51),
        1,
        51
    ));
    assert!(!is_cgroup_procs(path, link(60), directory(0o755, 51), 1, 51));
    assert!(!is_cgroup_procs(
        path,
        file(0o644, 60),
        directory(0o755, 52),
        1,
        51
    ));
    assert!(!is_cgroup_procs(
        b"/sys/fs/cgroup/aios/task/tasks",
        file(0o644, 60),
        directory(0o755, 51),
        1,
        51
    ));
    assert!(is_launchable(b"/usr/bin/bwrap", file(0o755, 20)));
    assert!(!is_launchable(b"bwrap", file(0o755, 20)));
}
