use sandy::config::{
    Bind, BindKind, Configuration, Directory, DirectoryKind, EnvVar, Environment, Link, Namespace,
    Profile, SandboxConfig,
};

fn empty_env() -> Environment {
    Environment { unset_all: false, unset: Vec::new(), vars: Vec::new() }
}

fn bare_config() -> SandboxConfig {
    SandboxConfig {
        shared_namespaces: Vec::new(),
        uid: None,
        gid: None,
        env: empty_env(),
        binds: Vec::new(),
        symlinks: Vec::new(),
        dirs: Vec::new(),
        users: None,
        groups: None,
    }
}

#[test]
fn empty_shared_namespaces_isolates_everything() {
    let c = bare_config();
    assert_eq!(c.bwrap_args(), vec!["--unshare-all".to_string()]);
}

#[test]
fn shared_subset_emits_absent_kinds_in_declaration_order() {
    let mut c = bare_config();
    c.shared_namespaces = vec![Namespace::User, Namespace::Network];
    assert_eq!(
        c.bwrap_args(),
        vec![
            "--unshare-ipc".to_string(),
            "--unshare-pid".to_string(),
            "--unshare-uts".to_string(),
            "--unshare-cgroup".to_string(),
        ]
    );
}

#[test]
fn all_shared_emits_nothing_for_namespaces() {
    let mut c = bare_config();
    c.shared_namespaces = vec![
        Namespace::User,
        Namespace::Ipc,
        Namespace::Pid,
        Namespace::Network,
        Namespace::Uts,
        Namespace::CGroup,
    ];
    assert_eq!(c.bwrap_args(), Vec::<String>::new());
}

#[test]
fn compiling_twice_yields_identical_tokens() {
    let mut c = bare_config();
    c.shared_namespaces = vec![Namespace::Pid];
    c.uid = Some(1000);
    c.binds.push(Bind {
        kind: BindKind::ReadWrite,
        src: "/home".to_string(),
        dest: "/home".to_string(),
    });
    let first = c.bwrap_args();
    let second = c.bwrap_args();
    assert_eq!(first, second);
}

#[test]
fn var_tokens_are_key_sorted_regardless_of_binding_order() {
    let mut e1 = Environment::empty();
    e1.set_var("PATH".to_string(), "/usr/bin".to_string());
    e1.set_var("HOME".to_string(), "/root".to_string());
    let mut e2 = Environment::empty();
    e2.set_var("HOME".to_string(), "/root".to_string());
    e2.set_var("PATH".to_string(), "/usr/bin".to_string());
    assert_eq!(e1.bwrap_args(), e2.bwrap_args());
    assert_eq!(
        e1.bwrap_args(),
        vec![
            "--setenv".to_string(),
            "HOME".to_string(),
            "/root".to_string(),
            "--setenv".to_string(),
            "PATH".to_string(),
            "/usr/bin".to_string(),
        ]
    );
}

#[test]
fn rebinding_a_key_replaces_its_value() {
    let mut e = Environment::empty();
    e.set_var("TERM".to_string(), "dumb".to_string());
    e.set_var("TERM".to_string(), "xterm".to_string());
    assert_eq!(
        e.bwrap_args(),
        vec!["--setenv".to_string(), "TERM".to_string(), "xterm".to_string()]
    );
}

#[test]
fn environment_tokens_follow_clear_unset_set_order() {
    let mut vars = Vec::new();
    vars.push(EnvVar { key: "LANG".to_string(), value: "C".to_string() });
    let e = Environment {
        unset_all: true,
        unset: vec!["SSH_AUTH_SOCK".to_string()],
        vars,
    };
    assert_eq!(
        e.bwrap_args(),
        vec![
            "--clearenv".to_string(),
            "--unsetenv".to_string(),
            "SSH_AUTH_SOCK".to_string(),
            "--setenv".to_string(),
            "LANG".to_string(),
            "C".to_string(),
        ]
    );
}

#[test]
fn read_only_bind_compiles_after_identity_and_before_links_and_dirs() {
    let mut c = bare_config();
    c.uid = Some(1000);
    c.gid = Some(100);
    c.binds.push(Bind {
        kind: BindKind::ReadOnly,
        src: "/usr".to_string(),
        dest: "/usr".to_string(),
    });
    c.symlinks.push(Link { src: "usr/lib".to_string(), dest: "/lib".to_string() });
    c.dirs.push(Directory { kind: DirectoryKind::TmpFs, path: "/tmp".to_string() });
    assert_eq!(
        c.bwrap_args(),
        vec![
            "--unshare-all".to_string(),
            "--uid".to_string(),
            "1000".to_string(),
            "--gid".to_string(),
            "100".to_string(),
            "--ro-bind".to_string(),
            "/usr".to_string(),
            "/usr".to_string(),
            "--symlink".to_string(),
            "usr/lib".to_string(),
            "/lib".to_string(),
            "--tmpfs".to_string(),
            "/tmp".to_string(),
        ]
    );
}

#[test]
fn bind_kinds_select_their_flags() {
    let rw = Bind { kind: BindKind::ReadWrite, src: "/a".to_string(), dest: "/b".to_string() };
    let ro = Bind { kind: BindKind::ReadOnly, src: "/a".to_string(), dest: "/b".to_string() };
    let dev = Bind { kind: BindKind::Device, src: "/a".to_string(), dest: "/b".to_string() };
    assert_eq!(rw.bwrap_args()[0], "--bind");
    assert_eq!(ro.bwrap_args()[0], "--ro-bind");
    assert_eq!(dev.bwrap_args()[0], "--dev-bind");
}

#[test]
fn directory_kinds_always_emit_flag_and_path() {
    for (kind, flag) in [
        (DirectoryKind::Directory, "--dir"),
        (DirectoryKind::Proc, "--proc"),
        (DirectoryKind::Dev, "--dev"),
        (DirectoryKind::TmpFs, "--tmpfs"),
    ] {
        let d = Directory { kind, path: "/x".to_string() };
        assert_eq!(d.bwrap_args(), vec![flag.to_string(), "/x".to_string()]);
    }
}

fn named_profile(name: &str, programs: Vec<&str>) -> Profile {
    Profile {
        name: name.to_string(),
        programs: programs.into_iter().map(|s| s.to_string()).collect(),
        config: bare_config(),
    }
}

#[test]
fn first_program_match_wins() {
    let conf = Configuration {
        default_profile: None,
        profiles: vec![named_profile("a", vec!["x"]), named_profile("b", vec!["x"])],
    };
    let p = conf.get_profile_for_program("x").expect("profile expected");
    assert_eq!(p.name, "a");
}

#[test]
fn default_profile_applies_when_no_program_matches() {
    let conf = Configuration {
        default_profile: Some("b".to_string()),
        profiles: vec![named_profile("a", vec![]), named_profile("b", vec![])],
    };
    let p = conf.get_profile_for_program("anything").expect("profile expected");
    assert_eq!(p.name, "b");
}

#[test]
fn no_match_and_no_default_resolves_to_none() {
    let conf = Configuration {
        default_profile: None,
        profiles: vec![named_profile("a", vec!["y"])],
    };
    assert!(conf.get_profile_for_program("x").is_none());
}

#[test]
fn missing_default_name_resolves_to_none() {
    let conf = Configuration {
        default_profile: Some("ghost".to_string()),
        profiles: vec![named_profile("a", vec!["y"])],
    };
    assert!(conf.get_profile_for_program("x").is_none());
}

#[test]
fn get_profile_finds_first_by_name() {
    let conf = Configuration {
        default_profile: None,
        profiles: vec![named_profile("dup", vec!["p"]), named_profile("dup", vec!["q"])],
    };
    let p = conf.get_profile("dup").expect("profile expected");
    assert_eq!(p.programs, vec!["p".to_string()]);
}
