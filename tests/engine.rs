use fps_server::engine::{Admission, GameInfo, Launch, SessionEngine};

fn started(a: Admission<usize>) -> Launch<usize> {
    match a {
        Admission::Start(l) => l,
        Admission::Queued => panic!("job was queued"),
        Admission::Duplicate(_) => panic!("job was refused as a duplicate"),
    }
}

#[test]
fn session_engine_can_be_added_to_while_running() {
    let game1 = GameInfo::new(0, "Server 1".to_string(), 500usize);
    let game2 = GameInfo::new(1, "Server 3".to_string(), 200usize);
    let game3 = GameInfo::new(2, "Server 3".to_string(), 100usize);

    let mut engine = SessionEngine::new(100);

    let l1 = started(engine.submit(game1));
    assert_eq!((l1.id, l1.body), (0, 500));
    let l2 = started(engine.submit(game2));
    assert_eq!((l2.id, l2.body), (1, 200));
    let l3 = started(engine.submit(game3));
    assert_eq!((l3.id, l3.body), (2, 100));
    assert_eq!(engine.running(), 3);

    // the shortest body ends first
    assert!(engine.finish(2).is_none());
    assert!(engine.finish(1).is_none());
    assert!(engine.finish(0).is_none());
    assert_eq!(engine.running(), 0);
    assert!(engine.snapshot().is_empty());
}

#[test]
fn second_job_registers_only_after_first_leaves() {
    let mut engine = SessionEngine::new(1);
    let l1 = started(engine.submit(GameInfo::new(10, "first".to_string(), 1usize)));
    assert_eq!(l1.id, 10);
    assert!(matches!(engine.submit(GameInfo::new(11, "second".to_string(), 2usize)), Admission::Queued));
    assert!(engine.is_running(10));
    assert!(!engine.is_running(11));
    assert_eq!(engine.running(), 1);

    let next = engine.finish(10).expect("the waiting job takes the freed permit");
    assert_eq!((next.id, next.body), (11, 2));
    assert!(!engine.is_running(10));
    assert!(engine.is_running(11));
    assert_eq!(engine.running(), 1);
    assert_eq!(engine.waiting(), 0);

    assert!(engine.finish(11).is_none());
    assert_eq!(engine.running(), 0);
}

#[test]
fn waiting_jobs_start_in_submission_order() {
    let mut engine = SessionEngine::new(1);
    started(engine.submit(GameInfo::new(1, "a".to_string(), 1usize)));
    for id in 2..6usize {
        assert!(matches!(engine.submit(GameInfo::new(id, format!("g{}", id), id)), Admission::Queued));
    }
    assert_eq!(engine.waiting(), 4);
    let mut current = 1usize;
    for expected in 2..6usize {
        let l = engine.finish(current).expect("a job waits");
        assert_eq!(l.id, expected);
        assert_eq!(engine.running(), 1);
        current = l.id;
    }
    assert_eq!(engine.waiting(), 0);
    assert!(engine.finish(current).is_none());
    assert_eq!(engine.running(), 0);
}

#[test]
fn registry_never_exceeds_capacity() {
    let mut engine = SessionEngine::new(3);
    for id in 0..10usize {
        engine.submit(GameInfo::new(id, "x".to_string(), id));
        assert!(engine.running() <= engine.capacity());
    }
    assert_eq!(engine.running(), 3);
    assert_eq!(engine.waiting(), 7);
    assert_eq!(engine.capacity(), 3);
}

#[test]
fn duplicate_id_is_handed_back() {
    let mut engine = SessionEngine::new(1);
    started(engine.submit(GameInfo::new(4, "running".to_string(), 1usize)));
    match engine.submit(GameInfo::new(4, "again".to_string(), 2usize)) {
        Admission::Duplicate(job) => {
            assert_eq!(job.id, 4);
            assert_eq!(job.name, "again");
            assert_eq!(job.into_body(), 2);
        }
        _ => panic!("a known id must be refused"),
    }
    assert!(matches!(engine.submit(GameInfo::new(5, "waits".to_string(), 3usize)), Admission::Queued));
    assert!(matches!(engine.submit(GameInfo::new(5, "waits too".to_string(), 4usize)), Admission::Duplicate(_)));
    assert_eq!(engine.running(), 1);
    assert_eq!(engine.waiting(), 1);
}

#[test]
fn finishing_an_unknown_id_changes_nothing() {
    let mut engine = SessionEngine::new(1);
    started(engine.submit(GameInfo::new(1, "a".to_string(), 1usize)));
    engine.submit(GameInfo::new(2, "b".to_string(), 2usize));
    assert!(engine.finish(99).is_none());
    assert!(engine.is_running(1));
    assert_eq!(engine.waiting(), 1);
}

#[test]
fn zero_capacity_runs_nothing() {
    let mut engine = SessionEngine::new(0);
    assert!(matches!(engine.submit(GameInfo::new(1, "a".to_string(), 1usize)), Admission::Queued));
    assert_eq!(engine.running(), 0);
    assert!(engine.finish(1).is_none());
    assert_eq!(engine.waiting(), 1);
}

#[test]
fn snapshot_lists_running_sessions_only() {
    let mut engine = SessionEngine::new(2);
    engine.submit(GameInfo::new(1, "alpha".to_string(), 0usize));
    engine.submit(GameInfo::new(2, "beta".to_string(), 0usize));
    engine.submit(GameInfo::new(3, "gamma".to_string(), 0usize));
    let snap = engine.snapshot();
    assert_eq!(snap.len(), 2);
    assert_eq!(snap.get(&1).map(|s| s.as_str()), Some("alpha"));
    assert_eq!(snap.get(&2).map(|s| s.as_str()), Some("beta"));
    assert!(snap.get(&3).is_none());
    engine.finish(1);
    let snap = engine.snapshot();
    assert_eq!(snap.len(), 2);
    assert!(snap.get(&1).is_none());
    assert_eq!(snap.get(&3).map(|s| s.as_str()), Some("gamma"));
}

#[test]
fn game_info_keeps_what_it_was_given() {
    let info = GameInfo::new(7, "lobby".to_string(), "body");
    assert_eq!(info.id, 7);
    assert_eq!(info.name, "lobby");
    assert_eq!(info.into_body(), "body");
}

#[test]
fn names_list_running_sessions_in_start_order() {
    let mut engine = SessionEngine::new(2);
    assert!(engine.names().is_empty());
    engine.submit(GameInfo::new(5, "alpha".to_string(), 0usize));
    engine.submit(GameInfo::new(3, "beta".to_string(), 0usize));
    engine.submit(GameInfo::new(9, "gamma".to_string(), 0usize));
    assert_eq!(engine.names(), vec!["alpha".to_string(), "beta".to_string()]);
    engine.finish(5);
    assert_eq!(engine.names(), vec!["beta".to_string(), "gamma".to_string()]);
    engine.finish(3);
    engine.finish(9);
    assert!(engine.names().is_empty());
}

#[test]
fn names_keep_equal_names_of_different_sessions() {
    let mut engine = SessionEngine::new(3);
    engine.submit(GameInfo::new(1, "Server 3".to_string(), 0usize));
    engine.submit(GameInfo::new(2, "Server 3".to_string(), 0usize));
    assert_eq!(engine.names(), vec!["Server 3".to_string(), "Server 3".to_string()]);
}
