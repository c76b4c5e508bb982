use goose_mobile::code::{
    answer_locally, catch_up_permissions, merge_permission_report, reply_failed, PendingAsk,
    Permission, PermissionReport,
};

fn perm(id: &str) -> Permission {
    Permission {
        id: id.to_owned(),
        session_id: "ses_1".to_owned(),
        title: "Run git push".to_owned(),
        kind: "bash".to_owned(),
    }
}

fn ids(queue: &[(String, Permission)]) -> Vec<(&str, &str)> {
    queue.iter().map(|(c, p)| (c.as_str(), p.id.as_str())).collect()
}

#[test]
fn an_answer_takes_the_card_off_at_once_and_leaves_a_tombstone() {
    let mut queue = vec![
        ("c1".to_owned(), perm("p1")),
        ("c1".to_owned(), perm("p2")),
        ("c2".to_owned(), perm("p1")),
    ];
    let mut answered = Vec::new();
    answer_locally(&mut queue, &mut answered, &"c1".to_owned(), &"p1".to_owned());
    assert_eq!(ids(&queue), [("c1", "p2"), ("c2", "p1")]);
    assert_eq!(answered, [("c1".to_owned(), "p1".to_owned())]);
    // answering twice leaves one tombstone
    answer_locally(&mut queue, &mut answered, &"c1".to_owned(), &"p1".to_owned());
    assert_eq!(answered.len(), 1);
}

#[test]
fn a_stale_snapshot_does_not_bring_an_answered_card_back() {
    let mut queue = vec![("c1".to_owned(), perm("p1"))];
    let mut answered = Vec::new();
    answer_locally(&mut queue, &mut answered, &"c1".to_owned(), &"p1".to_owned());
    let stale = PermissionReport {
        permissions: vec![PendingAsk { chat_id: "c1".to_owned(), permission: perm("p1") }],
        unreachable: Vec::new(),
    };
    merge_permission_report(&mut queue, &mut answered, &stale, None);
    assert!(queue.is_empty());
}

#[test]
fn a_refused_reply_lifts_the_tombstone_so_the_card_comes_back() {
    let mut queue = vec![("c1".to_owned(), perm("p1"))];
    let mut answered = Vec::new();
    answer_locally(&mut queue, &mut answered, &"c1".to_owned(), &"p1".to_owned());
    reply_failed(&mut answered, &"c1".to_owned(), &"p1".to_owned());
    assert!(answered.is_empty());
    let still = PermissionReport {
        permissions: vec![PendingAsk { chat_id: "c1".to_owned(), permission: perm("p1") }],
        unreachable: Vec::new(),
    };
    merge_permission_report(&mut queue, &mut answered, &still, None);
    assert_eq!(ids(&queue), [("c1", "p1")]);
}

#[test]
fn a_catch_up_adds_only_what_the_chat_has_not_queued() {
    let mut queue = vec![("c1".to_owned(), perm("p1")), ("c2".to_owned(), perm("p2"))];
    catch_up_permissions(
        &mut queue,
        &"c1".to_owned(),
        &vec![perm("p1"), perm("p2"), perm("p3"), perm("p3")],
    );
    assert_eq!(ids(&queue), [("c1", "p1"), ("c2", "p2"), ("c1", "p2"), ("c1", "p3")]);
}
