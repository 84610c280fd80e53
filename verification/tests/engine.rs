use dupfinder::db::{FsAction, HashDB, Outcome};
use dupfinder::rule::{decide_rule, Rule};

fn need_rule(new_parent: &str, existing_parent: &str, existing: &str) -> Outcome {
    Outcome::NeedRule {
        new_parent: new_parent.to_string(),
        existing_parent: existing_parent.to_string(),
        existing: existing.to_string(),
    }
}

#[test]
fn identical_content_triggers_one_resolution() {
    let mut db = HashDB::new();
    let content: &[u8] = b"same bytes";
    let r1 = db.process_file("/a/x.txt", content);
    assert_eq!(r1, Outcome::Recorded);
    let r2 = db.process_file("/b/y.txt", content);
    assert_eq!(r2, need_rule("/b", "/a", "/a/x.txt"));
}

#[test]
fn distinct_content_is_recorded_twice() {
    let mut db = HashDB::new();
    let r1 = db.process_file("/a/x.txt", b"one content");
    let r2 = db.process_file("/b/y.txt", b"another content");
    assert_eq!(r1, Outcome::Recorded);
    assert_eq!(r2, Outcome::Recorded);
}

#[test]
fn empty_files_are_duplicates_too() {
    let mut db = HashDB::new();
    let r1 = db.process_file("/a/empty1", b"");
    let r2 = db.process_file("/b/empty2", b"");
    assert_eq!(r1, Outcome::Recorded);
    assert_eq!(r2, need_rule("/b", "/a", "/a/empty1"));
}

#[test]
fn cached_rule_resolves_without_second_prompt() {
    let mut db = HashDB::new();
    let content: &[u8] = b"threefold";
    assert_eq!(db.process_file("/d2/b.txt", content), Outcome::Recorded);
    assert_eq!(
        db.process_file("/d1/a.txt", content),
        need_rule("/d1", "/d2", "/d2/b.txt")
    );
    db.install_rule("/d1", "/d2", Rule::Print);
    let ra = db.process_file("/d1/a.txt", content);
    assert_eq!(
        ra,
        Outcome::Resolved {
            action: FsAction::Report {
                duplicate: "/d1/a.txt".to_string(),
                original: "/d2/b.txt".to_string(),
            },
        }
    );
    // A third identical file under /d1 resolves at once, with no prompt.
    let rc = db.process_file("/d1/c.txt", content);
    assert_eq!(
        rc,
        Outcome::Resolved {
            action: FsAction::Report {
                duplicate: "/d1/c.txt".to_string(),
                original: "/d2/b.txt".to_string(),
            },
        }
    );
}

#[test]
fn cache_treats_directory_pair_as_unordered() {
    let mut db = HashDB::new();
    let first: &[u8] = b"first pair";
    assert_eq!(db.process_file("/a/x.txt", first), Outcome::Recorded);
    assert_eq!(
        db.process_file("/b/y.txt", first),
        need_rule("/b", "/a", "/a/x.txt")
    );
    db.install_rule("/b", "/a", Rule::Print);
    // A second content whose first copy sits in /b reverses the roles of
    // the two directories; the cached rule still answers.
    let second: &[u8] = b"second pair";
    assert_eq!(db.process_file("/b/q.txt", second), Outcome::Recorded);
    let r = db.process_file("/a/p.txt", second);
    assert_eq!(
        r,
        Outcome::Resolved {
            action: FsAction::Report {
                duplicate: "/a/p.txt".to_string(),
                original: "/b/q.txt".to_string(),
            },
        }
    );
}

#[test]
fn print_rule_is_idempotent() {
    let mut db = HashDB::new();
    let content: &[u8] = b"printable";
    db.process_file("/a/x.txt", content);
    db.process_file("/b/y.txt", content);
    db.install_rule("/b", "/a", Rule::Print);
    let expected = Outcome::Resolved {
        action: FsAction::Report {
            duplicate: "/b/y.txt".to_string(),
            original: "/a/x.txt".to_string(),
        },
    };
    assert_eq!(db.process_file("/b/y.txt", content), expected);
    assert_eq!(db.process_file("/b/y.txt", content), expected);
    assert_eq!(db.process_file("/b/y.txt", content), expected);
}

#[test]
fn move_rule_targets_destination_under_original_name() {
    let mut db = HashDB::new();
    let content: &[u8] = b"movable";
    db.process_file("/a/x.txt", content);
    db.process_file("/b/y.txt", content);
    db.install_rule("/b", "/a", Rule::Move("/b".to_string(), "/backup".to_string()));
    let r = db.process_file("/b/y.txt", content);
    assert_eq!(
        r,
        Outcome::Resolved {
            action: FsAction::Relocate {
                source: "/b/y.txt".to_string(),
                dest: "/backup/y.txt".to_string(),
            },
        }
    );
}

#[test]
fn move_rule_spares_the_winning_side() {
    let mut db = HashDB::new();
    let content: &[u8] = b"movable too";
    db.process_file("/a/x.txt", content);
    db.process_file("/b/y.txt", content);
    db.install_rule("/b", "/a", Rule::Move("/a".to_string(), "/backup".to_string()));
    // The losing directory is /a, so the recorded file moves, not the new one.
    let r = db.process_file("/b/y.txt", content);
    assert_eq!(
        r,
        Outcome::Resolved {
            action: FsAction::Relocate {
                source: "/a/x.txt".to_string(),
                dest: "/backup/x.txt".to_string(),
            },
        }
    );
}

#[test]
fn delete_rule_removes_only_the_losing_copy() {
    // Two roots /a and /b hold files of one content; the operator keeps
    // /a's copy, so /b's copy is the one designated for removal.
    let mut db = HashDB::new();
    let content: &[u8] = b"keep one";
    assert_eq!(db.process_file("/a/x.txt", content), Outcome::Recorded);
    let conflict = db.process_file("/b/y.txt", content);
    assert_eq!(conflict, need_rule("/b", "/a", "/a/x.txt"));
    // 'd' chooses Delete; '2' prefers the existing parent /a.
    let rule = decide_rule(100, 50, "/b", "/a", None);
    assert_eq!(rule, Rule::Delete("/b".to_string()));
    db.install_rule("/b", "/a", rule);
    let r = db.process_file("/b/y.txt", content);
    assert_eq!(
        r,
        Outcome::Resolved {
            action: FsAction::Remove {
                victim: "/b/y.txt".to_string(),
            },
        }
    );
}

#[test]
fn delete_rule_can_remove_the_recorded_copy() {
    let mut db = HashDB::new();
    let content: &[u8] = b"keep the new one";
    db.process_file("/a/x.txt", content);
    db.process_file("/b/y.txt", content);
    // '1' prefers the new parent /b, so the recorded copy under /a loses.
    let rule = decide_rule(100, 49, "/b", "/a", None);
    assert_eq!(rule, Rule::Delete("/a".to_string()));
    db.install_rule("/b", "/a", rule);
    let r = db.process_file("/b/y.txt", content);
    assert_eq!(
        r,
        Outcome::Resolved {
            action: FsAction::Remove {
                victim: "/a/x.txt".to_string(),
            },
        }
    );
}

#[test]
fn install_rule_keeps_the_first_rule() {
    let mut db = HashDB::new();
    let content: &[u8] = b"first rule wins";
    db.process_file("/a/x.txt", content);
    db.process_file("/b/y.txt", content);
    db.install_rule("/b", "/a", Rule::Print);
    db.install_rule("/a", "/b", Rule::Delete("/a".to_string()));
    let r = db.process_file("/b/y.txt", content);
    assert_eq!(
        r,
        Outcome::Resolved {
            action: FsAction::Report {
                duplicate: "/b/y.txt".to_string(),
                original: "/a/x.txt".to_string(),
            },
        }
    );
}

#[test]
fn find_on_fresh_engine_is_empty() {
    let db = HashDB::new();
    assert_eq!(db.find("0000"), None);
    assert_eq!(db.find(""), None);
}

#[test]
fn decide_rule_maps_keystrokes() {
    assert_eq!(decide_rule(112, 49, "/n", "/e", None), Rule::Print);
    assert_eq!(decide_rule(100, 50, "/n", "/e", None), Rule::Delete("/n".to_string()));
    assert_eq!(decide_rule(100, 49, "/n", "/e", None), Rule::Delete("/e".to_string()));
    assert_eq!(
        decide_rule(109, 50, "/n", "/e", Some("/dest".to_string())),
        Rule::Move("/n".to_string(), "/dest".to_string())
    );
    assert_eq!(
        decide_rule(109, 49, "/n", "/e", Some("/dest".to_string())),
        Rule::Move("/e".to_string(), "/dest".to_string())
    );
}

#[test]
fn move_without_destination_falls_back_to_print() {
    assert_eq!(decide_rule(109, 50, "/n", "/e", None), Rule::Print);
}
