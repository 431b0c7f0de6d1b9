use sandy::config::{Bind, BindKind, Environment, SandboxConfig};
use sandy::exit::Exit;
use sandy::getent::{lookup_args, Database};
use sandy::launch::{bwrap_invocation, interpret_exit_status, GROUP_FD, PASSWD_FD};
use sandy::strutil::{str_eq, str_lt_exec, u32_to_dec};

fn bare_config() -> SandboxConfig {
    SandboxConfig {
        shared_namespaces: Vec::new(),
        uid: None,
        gid: None,
        env: Environment { unset_all: false, unset: Vec::new(), vars: Vec::new() },
        binds: Vec::new(),
        symlinks: Vec::new(),
        dirs: Vec::new(),
        users: None,
        groups: None,
    }
}

#[test]
fn passwd_lookup_passes_empty_string_then_names() {
    let keys = vec!["alice".to_string()];
    assert_eq!(
        lookup_args(Database::Passwd, &keys),
        vec!["passwd".to_string(), "".to_string(), "alice".to_string()]
    );
}

#[test]
fn group_lookup_passes_all_names_in_order() {
    let keys = vec!["wheel".to_string(), "audio".to_string()];
    assert_eq!(
        lookup_args(Database::Group, &keys),
        vec![
            "group".to_string(),
            "".to_string(),
            "wheel".to_string(),
            "audio".to_string(),
        ]
    );
}

#[test]
fn empty_key_list_still_queries_the_database() {
    assert_eq!(
        lookup_args(Database::Passwd, &Vec::new()),
        vec!["passwd".to_string(), "".to_string()]
    );
}

#[test]
fn users_reserve_the_passwd_descriptor_slot() {
    let mut c = bare_config();
    c.users = Some(vec!["alice".to_string()]);
    let argv = bwrap_invocation(&c, &"ls".to_string(), &Vec::new());
    assert_eq!(
        argv,
        vec![
            "--die-with-parent".to_string(),
            "--unshare-all".to_string(),
            "--file".to_string(),
            "10".to_string(),
            "/etc/passwd".to_string(),
            "--".to_string(),
            "ls".to_string(),
        ]
    );
    assert_eq!(PASSWD_FD, 10);
}

#[test]
fn groups_reserve_the_group_descriptor_slot_after_passwd() {
    let mut c = bare_config();
    c.users = Some(vec!["alice".to_string()]);
    c.groups = Some(vec!["wheel".to_string()]);
    let argv = bwrap_invocation(&c, &"true".to_string(), &Vec::new());
    assert_eq!(
        argv,
        vec![
            "--die-with-parent".to_string(),
            "--unshare-all".to_string(),
            "--file".to_string(),
            "10".to_string(),
            "/etc/passwd".to_string(),
            "--file".to_string(),
            "11".to_string(),
            "/etc/group".to_string(),
            "--".to_string(),
            "true".to_string(),
        ]
    );
    assert_eq!(GROUP_FD, 11);
}

#[test]
fn program_arguments_pass_through_verbatim_after_separator() {
    let mut c = bare_config();
    c.binds.push(Bind {
        kind: BindKind::ReadOnly,
        src: "/usr".to_string(),
        dest: "/usr".to_string(),
    });
    let argv = bwrap_invocation(
        &c,
        &"grep".to_string(),
        &vec!["-r".to_string(), "needle".to_string()],
    );
    assert_eq!(
        argv,
        vec![
            "--die-with-parent".to_string(),
            "--unshare-all".to_string(),
            "--ro-bind".to_string(),
            "/usr".to_string(),
            "/usr".to_string(),
            "--".to_string(),
            "grep".to_string(),
            "-r".to_string(),
            "needle".to_string(),
        ]
    );
}

#[test]
fn known_exit_codes_pass_through() {
    let e = interpret_exit_status(Some(42));
    assert!(matches!(e, Exit::Program(42)));
    assert_eq!(e.code(), 42);
}

#[test]
fn unknown_termination_is_a_launcher_failure() {
    let e = interpret_exit_status(None);
    match &e {
        Exit::Me(msg) => assert_eq!(msg, "unknown exit code"),
        Exit::Program(_) => panic!("expected a launcher failure"),
    }
    assert_eq!(e.code(), 1);
}

#[test]
fn launcher_failures_exit_with_one() {
    assert_eq!(Exit::Me("anything".to_string()).code(), 1);
    assert_eq!(Exit::Program(0).code(), 0);
    assert_eq!(Exit::Program(-7).code(), -7);
}

#[test]
fn decimal_rendering_matches_std() {
    for n in [0u32, 1, 9, 10, 99, 100, 1000, 65535, 4294967295] {
        assert_eq!(u32_to_dec(n), n.to_string());
    }
}

#[test]
fn string_order_is_lexicographic() {
    assert!(str_lt_exec("HOME", "PATH"));
    assert!(!str_lt_exec("PATH", "HOME"));
    assert!(str_lt_exec("PATH", "PATHEXT"));
    assert!(!str_lt_exec("PATH", "PATH"));
    assert!(str_lt_exec("", "A"));
    assert!(!str_lt_exec("A", ""));
}

#[test]
fn string_equality_compares_contents() {
    assert!(str_eq("alice", "alice"));
    assert!(!str_eq("alice", "alicia"));
    assert!(!str_eq("alice", "alic"));
    assert!(str_eq("", ""));
}
