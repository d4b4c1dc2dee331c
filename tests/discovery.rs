use prompt_dialog::discovery::{
    directories_match, explicit_port_result, is_candidate, select_candidates, server_from_path,
    Candidate, Discovery,
    DiscoveryError, Outcome, PathResponse, Server, Step, ValidationError,
};

fn cand(pid: u32, cmdline: &str) -> Candidate {
    Candidate {
        pid,
        cmdline: cmdline.to_string(),
    }
}

fn server(port: u16, cwd: &str) -> Server {
    Server {
        pid: 0,
        port,
        cwd: cwd.to_string(),
    }
}

#[test]
fn server_from_path_prefers_directory() {
    let r = server_from_path(
        80,
        PathResponse {
            directory: Some("/a".to_string()),
            worktree: Some("/b".to_string()),
        },
    )
    .unwrap();
    assert_eq!((r.pid, r.port, r.cwd.as_str()), (0, 80, "/a"));
    let r = server_from_path(
        81,
        PathResponse {
            directory: None,
            worktree: Some("/b".to_string()),
        },
    )
    .unwrap();
    assert_eq!((r.port, r.cwd.as_str()), (81, "/b"));
}

#[test]
fn server_from_path_without_directory_is_protocol_error() {
    let r = server_from_path(
        80,
        PathResponse {
            directory: None,
            worktree: None,
        },
    );
    assert!(matches!(r, Err(ValidationError::Protocol)));
}

#[test]
fn explicit_port_error_names_port() {
    let r = explicit_port_result(5, Err(ValidationError::Connection("refused".to_string())));
    match r {
        Err(DiscoveryError::PortNotResponding { port, error: ValidationError::Connection(m) }) => {
            assert_eq!(port, 5);
            assert_eq!(m, "refused");
        }
        other => panic!("unexpected {:?}", other),
    }
    let r = explicit_port_result(5, Ok(server(5, "/x"))).unwrap();
    assert_eq!(r.cwd, "/x");
}

#[test]
fn directories_match_parent_child_not_sibling() {
    assert!(directories_match("/home/u/proj/sub", "/home/u/proj"));
    assert!(directories_match("/home/u/proj", "/home/u/proj/sub"));
    assert!(directories_match("/home/u/proj", "/home/u/proj"));
    assert!(!directories_match("/home/u/proj", "/home/u/other"));
    assert!(!directories_match("/home/u/proj2", "/home/u/proj"));
}

#[test]
fn discovery_without_candidates_fails() {
    let mut d = Discovery::new(vec![]);
    assert!(matches!(d.start(), Step::Failed(DiscoveryError::NoProcesses)));
}

#[test]
fn discovery_skips_candidates_without_port() {
    let mut d = Discovery::new(vec![cand(1, "opencode --port"), cand(2, "opencode --port 7000")]);
    assert!(matches!(d.start(), Step::Probe { index: 1, port: 7000 }));
    let step = d.on_outcome(Outcome::Reached {
        server: server(7000, "/w"),
        server_dir: "/w".to_string(),
        cwd: "/w/sub".to_string(),
    });
    match step {
        Step::Found(s) => assert_eq!((s.pid, s.port, s.cwd.as_str()), (2, 7000, "/w")),
        other => panic!("unexpected {:?}", other),
    }
}

#[test]
fn discovery_continues_after_failure_and_mismatch() {
    let mut d = Discovery::new(vec![
        cand(1, "opencode --port 1"),
        cand(2, "opencode --port=2"),
        cand(3, "opencode --port 3"),
    ]);
    assert!(matches!(d.start(), Step::Probe { index: 0, port: 1 }));
    let step = d.on_outcome(Outcome::Failed(ValidationError::Protocol));
    assert!(matches!(step, Step::Probe { index: 1, port: 2 }));
    let step = d.on_outcome(Outcome::Reached {
        server: server(2, "/other"),
        server_dir: "/other".to_string(),
        cwd: "/mine".to_string(),
    });
    assert!(matches!(step, Step::Probe { index: 2, port: 3 }));
    let step = d.on_outcome(Outcome::Reached {
        server: server(3, "/"),
        server_dir: "/".to_string(),
        cwd: "/mine".to_string(),
    });
    match step {
        Step::Found(s) => assert_eq!((s.pid, s.port), (3, 3)),
        other => panic!("unexpected {:?}", other),
    }
}

#[test]
fn discovery_exhausted_reports_last_error() {
    let mut d = Discovery::new(vec![cand(1, "opencode --port 1"), cand(2, "opencode --port 2")]);
    d.start();
    d.on_outcome(Outcome::Failed(ValidationError::Connection("first".to_string())));
    let step = d.on_outcome(Outcome::Failed(ValidationError::Connection("second".to_string())));
    match step {
        Step::Failed(DiscoveryError::Unreachable(ValidationError::Connection(m))) => {
            assert_eq!(m, "second")
        }
        other => panic!("unexpected {:?}", other),
    }
}

#[test]
fn discovery_exhausted_without_error_is_no_match() {
    let mut d = Discovery::new(vec![cand(1, "opencode --port 1"), cand(2, "opencode --port x")]);
    d.start();
    let step = d.on_outcome(Outcome::Reached {
        server: server(1, "/a"),
        server_dir: "/a".to_string(),
        cwd: "/b".to_string(),
    });
    assert!(matches!(step, Step::Failed(DiscoveryError::NoMatch)));
    let mut d = Discovery::new(vec![cand(1, "opencode --port")]);
    assert!(matches!(d.start(), Step::Failed(DiscoveryError::NoMatch)));
}

#[test]
fn candidate_needs_tool_name_and_port_flag() {
    assert!(is_candidate("opencode --port 1"));
    assert!(is_candidate("node /x/opencode.js --port=2"));
    assert!(!is_candidate("opencode serve"));
    assert!(!is_candidate("other --port 3"));
    assert!(!is_candidate(""));
}

#[test]
fn select_candidates_keeps_listing_order() {
    let listing = vec![
        (10, "opencode --port 1".to_string()),
        (11, "vim notes".to_string()),
        (12, "bash -c opencode --port=2".to_string()),
        (13, "opencode".to_string()),
    ];
    let c = select_candidates(&listing);
    let got: Vec<(u32, &str)> = c.iter().map(|c| (c.pid, c.cmdline.as_str())).collect();
    assert_eq!(
        got,
        vec![(10, "opencode --port 1"), (12, "bash -c opencode --port=2")]
    );
    assert!(select_candidates(&vec![]).is_empty());
}

#[test]
fn discovery_keeps_error_across_mismatch() {
    let mut d = Discovery::new(vec![cand(1, "opencode --port 1"), cand(2, "opencode --port 2")]);
    d.start();
    d.on_outcome(Outcome::Failed(ValidationError::Connection("gone".to_string())));
    let step = d.on_outcome(Outcome::Reached {
        server: server(2, "/w/a"),
        server_dir: "/w/a".to_string(),
        cwd: "/w/b".to_string(),
    });
    match step {
        Step::Failed(DiscoveryError::Unreachable(ValidationError::Connection(m))) => {
            assert_eq!(m, "gone")
        }
        other => panic!("unexpected {:?}", other),
    }
}

#[test]
fn discovery_sibling_directory_is_no_match() {
    let mut d = Discovery::new(vec![cand(7, "opencode --port 9")]);
    assert!(matches!(d.start(), Step::Probe { index: 0, port: 9 }));
    let step = d.on_outcome(Outcome::Reached {
        server: server(9, "/w/a"),
        server_dir: "/w/a".to_string(),
        cwd: "/w/b".to_string(),
    });
    assert!(matches!(step, Step::Failed(DiscoveryError::NoMatch)));
}
