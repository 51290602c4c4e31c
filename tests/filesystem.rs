use k8s_openapi::apimachinery::pkg::apis::meta::v1::{ObjectMeta, Time};
use kubefuse::attr::{block_count, creation_secs, FileKind, DIR_PERM, FILE_PERM};
use kubefuse::fs::{FsError, KubeFilesystem};
use kubefuse::resource::{NamespaceListing, Resource, UpstreamError};

fn resource(name: Option<&str>, created: Option<i64>, manifest: &[u8]) -> Resource {
    Resource { name: name.map(|n| n.to_string()), created, manifest: manifest.to_vec() }
}

fn listing(name: &str, cms: Result<Vec<Resource>, UpstreamError>) -> NamespaceListing {
    NamespaceListing { namespace: resource(Some(name), Some(100), b"kind: Namespace\n"), config_maps: cms }
}

fn built(ls: Vec<NamespaceListing>) -> KubeFilesystem {
    let mut fs = KubeFilesystem::new();
    assert_eq!(fs.init(Ok(ls), 42), Ok(()));
    fs
}

fn ino_of(fs: &KubeFilesystem, path: &[&str]) -> u64 {
    let mut ino = 1;
    for seg in path {
        ino = fs.lookup(ino, seg).expect("path exists").ino;
    }
    ino
}

fn namespace(name: &str) -> k8s_openapi::api::core::v1::Namespace {
    k8s_openapi::api::core::v1::Namespace {
        metadata: ObjectMeta {
            name: Some(name.to_string()),
            creation_timestamp: Some(Time(k8s_openapi::chrono::DateTime::from_timestamp(1_700_000_000, 0).unwrap())),
            ..Default::default()
        },
        ..Default::default()
    }
}

fn config_map(name: Option<&str>) -> k8s_openapi::api::core::v1::ConfigMap {
    k8s_openapi::api::core::v1::ConfigMap {
        metadata: ObjectMeta { name: name.map(|n| n.to_string()), namespace: Some("default".to_string()), ..Default::default() },
        data: Some([("key".to_string(), "value".to_string())].into_iter().collect()),
        ..Default::default()
    }
}

#[test]
fn scenario_files_hold_serialized_objects() {
    let ns_default = namespace("default");
    let ns_system = namespace("kube-system");
    let cm = config_map(Some("cfg1"));
    let ls = vec![
        NamespaceListing {
            namespace: Resource::from_namespace(&ns_default),
            config_maps: Ok(vec![Resource::from_config_map(&cm)]),
        },
        NamespaceListing {
            namespace: Resource::from_namespace(&ns_system),
            config_maps: Ok(vec![Resource::from_config_map(&config_map(Some("cfg1")))]),
        },
    ];
    let fs = built(ls);

    let cm_ino = ino_of(&fs, &["default", "configmaps", "cfg1.yaml"]);
    let attr = fs.getattr(cm_ino).unwrap();
    assert_eq!(attr.kind, FileKind::RegularFile);
    assert_eq!(attr.perm, FILE_PERM);
    let cm_yaml = serde_yaml::to_string(&cm).unwrap().into_bytes();
    assert!(!cm_yaml.is_empty());
    assert_eq!(fs.read(cm_ino, 0, u32::MAX).unwrap(), cm_yaml);
    assert_eq!(attr.size, cm_yaml.len() as u64);

    let man_ino = ino_of(&fs, &["default", "manifest.yaml"]);
    let ns_yaml = serde_yaml::to_string(&ns_default).unwrap().into_bytes();
    assert_eq!(fs.read(man_ino, 0, u32::MAX).unwrap(), ns_yaml);
    let man_attr = fs.getattr(man_ino).unwrap();
    assert_eq!(man_attr.crtime, 1_700_000_000);
    assert_eq!(man_attr.mtime, 1_700_000_000);

    assert!(fs.lookup(ino_of(&fs, &["kube-system", "configmaps"]), "cfg1.yaml").is_ok());
}

#[test]
fn scenario_unnamed_config_map_is_skipped() {
    let ls = vec![listing(
        "default",
        Ok(vec![resource(Some("a"), None, b"x"), resource(None, None, b"y")]),
    )];
    let fs = built(ls);
    let dir = ino_of(&fs, &["default", "configmaps"]);
    let entries = fs.readdir(dir, 0).unwrap();
    assert_eq!(entries.len(), 3);
    assert_eq!(entries[2].name, "a.yaml");
    assert_eq!(entries[2].kind, FileKind::RegularFile);
}

#[test]
fn scenario_failed_namespace_listing_is_fatal() {
    let mut fs = KubeFilesystem::new();
    let r = fs.init(Err(UpstreamError { message: "connection refused".to_string() }), 42);
    assert_eq!(r, Err(FsError::Io));
    assert_eq!(fs.lookup(1, "default").unwrap_err(), FsError::NotFound);
    assert_eq!(fs.getattr(1).unwrap_err(), FsError::NotFound);
    assert_eq!(fs.readdir(1, 0).err(), Some(FsError::NotFound));
}

#[test]
fn scenario_root_listing() {
    let fs = built(vec![listing("default", Ok(vec![])), listing("kube-system", Ok(vec![]))]);
    let entries = fs.readdir(1, 0).unwrap();
    let names: Vec<&str> = entries.iter().map(|e| e.name.as_str()).collect();
    assert_eq!(names, vec![".", "..", "default", "kube-system"]);
    let offsets: Vec<u64> = entries.iter().map(|e| e.offset).collect();
    assert_eq!(offsets, vec![1, 2, 3, 4]);
    assert_eq!(entries[0].ino, 1);
    assert_eq!(entries[1].ino, 1);
    assert!(entries.iter().all(|e| e.kind == FileKind::Directory));
}

#[test]
fn readdir_resumes_at_offset() {
    let fs = built(vec![listing("default", Ok(vec![])), listing("kube-system", Ok(vec![]))]);
    let rest = fs.readdir(1, 2).unwrap();
    assert_eq!(rest.len(), 2);
    assert_eq!(rest[0].name, "default");
    assert_eq!(rest[0].offset, 3);
    assert_eq!(rest[1].name, "kube-system");
    assert!(fs.readdir(1, 4).unwrap().is_empty());
    assert!(fs.readdir(1, 100).unwrap().is_empty());
    assert!(fs.readdir(1, -1).unwrap().is_empty());
}

#[test]
fn dot_dot_is_always_the_root() {
    let fs = built(vec![listing("default", Ok(vec![]))]);
    let ns = ino_of(&fs, &["default"]);
    let entries = fs.readdir(ns, 0).unwrap();
    assert_eq!(entries[0].ino, ns);
    assert_eq!(entries[1].ino, 1);
    let names: Vec<&str> = entries.iter().map(|e| e.name.as_str()).collect();
    assert_eq!(names, vec![".", "..", "manifest.yaml", "configmaps"]);
}

#[test]
fn lookup_then_getattr_agree() {
    let fs = built(vec![listing("default", Ok(vec![resource(Some("c"), Some(7), b"data")]))]);
    for (parent, name) in [(1, "default")] {
        let a = fs.lookup(parent, name).unwrap();
        assert_eq!(fs.getattr(a.ino).unwrap(), a);
    }
    let dir = ino_of(&fs, &["default", "configmaps"]);
    let a = fs.lookup(dir, "c.yaml").unwrap();
    assert_eq!(fs.getattr(a.ino).unwrap(), a);
    assert_eq!(a.crtime, 7);
}

#[test]
fn read_at_or_past_end_is_empty() {
    let fs = built(vec![listing("default", Ok(vec![resource(Some("c"), None, b"hello")]))]);
    let f = ino_of(&fs, &["default", "configmaps", "c.yaml"]);
    assert_eq!(fs.read(f, 5, 10).unwrap(), Vec::<u8>::new());
    assert_eq!(fs.read(f, 50, 10).unwrap(), Vec::<u8>::new());
    assert_eq!(fs.read(f, -3, 10).unwrap(), Vec::<u8>::new());
}

#[test]
fn read_past_end_returns_prefix() {
    let fs = built(vec![listing("default", Ok(vec![resource(Some("c"), None, b"hello")]))]);
    let f = ino_of(&fs, &["default", "configmaps", "c.yaml"]);
    assert_eq!(fs.read(f, 2, 10).unwrap(), b"llo".to_vec());
    assert_eq!(fs.read(f, 1, 3).unwrap(), b"ell".to_vec());
    assert_eq!(fs.read(f, 0, 0).unwrap(), Vec::<u8>::new());
}

#[test]
fn wrong_type_errors() {
    let fs = built(vec![listing("default", Ok(vec![resource(Some("c"), None, b"hello")]))]);
    let ns = ino_of(&fs, &["default"]);
    let man = ino_of(&fs, &["default", "manifest.yaml"]);
    assert_eq!(fs.read(ns, 0, 10).unwrap_err(), FsError::IsDir);
    assert_eq!(fs.readdir(man, 0).err(), Some(FsError::NotDir));
    assert_eq!(fs.lookup(man, "x").unwrap_err(), FsError::NotFound);
    assert_eq!(fs.lookup(1, "missing").unwrap_err(), FsError::NotFound);
    assert_eq!(fs.getattr(999).unwrap_err(), FsError::NotFound);
    assert_eq!(fs.read(999, 0, 1).unwrap_err(), FsError::NotFound);
    assert_eq!(fs.readdir(999, 0).err(), Some(FsError::NotFound));
}

#[test]
fn failed_config_map_listing_leaves_no_subtree() {
    let fs = built(vec![
        listing("a", Err(UpstreamError { message: "timeout".to_string() })),
        listing("b", Ok(vec![])),
    ]);
    let a = ino_of(&fs, &["a"]);
    assert_eq!(fs.lookup(a, "configmaps").unwrap_err(), FsError::NotFound);
    assert!(fs.lookup(a, "manifest.yaml").is_ok());
    assert!(fs.lookup(ino_of(&fs, &["b"]), "configmaps").is_ok());
}

#[test]
fn unnamed_namespace_is_skipped_and_root_links_count_namespaces() {
    let mut unnamed = listing("x", Ok(vec![]));
    unnamed.namespace.name = None;
    let fs = built(vec![listing("a", Ok(vec![])), unnamed, listing("b", Ok(vec![]))]);
    assert_eq!(fs.readdir(1, 0).unwrap().len(), 4);
    let root = fs.getattr(1).unwrap();
    assert_eq!(root.nlink, 4);
    assert_eq!(root.kind, FileKind::Directory);
    assert_eq!(root.perm, DIR_PERM);
}

#[test]
fn inodes_are_allocated_in_order() {
    let fs = built(vec![listing("a", Ok(vec![resource(Some("c"), None, b"z")]))]);
    assert_eq!(ino_of(&fs, &["a"]), 2);
    assert_eq!(ino_of(&fs, &["a", "manifest.yaml"]), 3);
    assert_eq!(ino_of(&fs, &["a", "configmaps"]), 4);
    assert_eq!(ino_of(&fs, &["a", "configmaps", "c.yaml"]), 5);
    let dir = fs.getattr(4).unwrap();
    assert_eq!(dir.crtime, 42);
    assert_eq!(dir.nlink, 2);
}

#[test]
fn file_sizes_and_blocks() {
    let big = vec![b'x'; 1025];
    let fs = built(vec![listing("a", Ok(vec![resource(Some("c"), None, &big), resource(Some("e"), None, b"")]))]);
    let c = fs.getattr(ino_of(&fs, &["a", "configmaps", "c.yaml"])).unwrap();
    assert_eq!(c.size, 1025);
    assert_eq!(c.blocks, 3);
    assert_eq!(c.blksize, 512);
    let e = fs.getattr(ino_of(&fs, &["a", "configmaps", "e.yaml"])).unwrap();
    assert_eq!(e.size, 0);
    assert_eq!(e.blocks, 0);
}

#[test]
fn block_count_rounds_up() {
    assert_eq!(block_count(0), 0);
    assert_eq!(block_count(1), 1);
    assert_eq!(block_count(512), 1);
    assert_eq!(block_count(513), 2);
}

#[test]
fn creation_time_falls_back_to_epoch() {
    assert_eq!(creation_secs(None), 0);
    assert_eq!(creation_secs(Some(-5)), 0);
    assert_eq!(creation_secs(Some(100)), 100);
}

#[test]
fn duplicate_names_keep_one_entry() {
    let fs = built(vec![listing("a", Ok(vec![resource(Some("c"), None, b"1"), resource(Some("c"), None, b"22")]))]);
    let dir = ino_of(&fs, &["a", "configmaps"]);
    assert_eq!(fs.readdir(dir, 0).unwrap().len(), 3);
    let f = ino_of(&fs, &["a", "configmaps", "c.yaml"]);
    assert_eq!(fs.read(f, 0, 10).unwrap(), b"22".to_vec());
}

#[test]
fn resource_from_objects_reads_metadata() {
    let r = Resource::from_namespace(&namespace("default"));
    assert_eq!(r.name.as_deref(), Some("default"));
    assert_eq!(r.created, Some(1_700_000_000));
    assert_eq!(r.manifest, serde_yaml::to_string(&namespace("default")).unwrap().into_bytes());
    let c = Resource::from_config_map(&config_map(None));
    assert_eq!(c.name, None);
    assert_eq!(c.created, None);
    assert!(!c.manifest.is_empty());
}

#[test]
fn open_and_release_always_succeed() {
    let fs = built(vec![]);
    assert_eq!(fs.open(1, 0), (0, 0));
    assert_eq!(fs.release(1, 0), Ok(()));
    assert!(fs.readdir(1, 0).unwrap().len() == 2);
}
