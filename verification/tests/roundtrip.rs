use chain::clock::Moment;
use chain::tasklisting::TaskListing;
use chain::taskoperation::TaskOperation;

fn at(day: u32, hour: u32, minute: u32) -> Moment {
    Moment {
        utc_seconds: day as u64 * 86400 + hour as u64 * 3600 + minute as u64 * 60,
        local_day: day,
        hour,
        minute,
    }
}

#[test]
fn round_trip_empty() {
    let list = TaskListing::new();
    let tokens = list.encode();
    assert_eq!(tokens, vec![0u64]);
    let back = TaskListing::parse(&tokens).unwrap();
    assert_eq!(back.total_tasks(), 0);
}

#[test]
fn round_trip_populated() {
    let day: u32 = 738_000;
    let mut list = TaskListing::new();
    for name in ["water the garden", "caf\u{e9} \u{2615} break", "read"] {
        let add = TaskOperation::Add {
            description: name.into(),
        };
        assert!(list.handle_operation_at(&add, &at(day, 6, 15)).is_ok());
    }
    let complete = TaskOperation::MarkComplete {
        task_index: 1,
        remark: Some("extra shot".into()),
    };
    assert!(list.handle_operation_at(&complete, &at(day, 7, 30)).is_ok());
    let complete = TaskOperation::MarkComplete {
        task_index: 1,
        remark: None,
    };
    assert!(list.handle_operation_at(&complete, &at(day + 1, 8, 5)).is_ok());
    let remark = TaskOperation::AddRemark {
        task_index: 2,
        remark: "library copy".into(),
    };
    assert!(list.handle_operation_at(&remark, &at(day, 21, 0)).is_ok());

    let tokens = list.encode();
    let back = TaskListing::parse(&tokens).unwrap();

    // Element-wise equality: task order, revisions, completions, remarks.
    assert_eq!(back.total_tasks(), list.total_tasks());
    for (orig, parsed) in list.task_iter().iter().zip(back.task_iter().iter()) {
        assert_eq!(orig.detail_history.len(), parsed.detail_history.len());
        for (a, b) in orig.detail_history.iter().zip(parsed.detail_history.iter()) {
            assert_eq!(a.revised, b.revised);
            assert_eq!(a.revision_id, b.revision_id);
            assert_eq!(a.description, b.description);
            assert_eq!(a.sync_time, b.sync_time);
        }
        assert_eq!(orig.completions.len(), parsed.completions.len());
        for (a, b) in orig.completions.iter().zip(parsed.completions.iter()) {
            assert_eq!(a.datetime, b.datetime);
            assert_eq!(a.local_day, b.local_day);
            assert_eq!(a.hour, b.hour);
            assert_eq!(a.minute, b.minute);
            match (&a.remark, &b.remark) {
                (None, None) => {}
                (Some(x), Some(y)) => {
                    assert_eq!(x.datetime, y.datetime);
                    assert_eq!(x.remark, y.remark);
                }
                _ => panic!("remark presence changed in the round trip"),
            }
        }
        assert_eq!(orig.remarks.len(), parsed.remarks.len());
        for (a, b) in orig.remarks.iter().zip(parsed.remarks.iter()) {
            assert_eq!(a.datetime, b.datetime);
            assert_eq!(a.remark, b.remark);
        }
    }
}

#[test]
fn parse_rejects_truncated_stream() {
    // Claims one task but carries none.
    assert!(TaskListing::parse(&vec![1u64]).is_none());
}

#[test]
fn parse_rejects_trailing_tokens() {
    let list = TaskListing::new();
    let mut tokens = list.encode();
    tokens.push(7);
    assert!(TaskListing::parse(&tokens).is_none());
}

#[test]
fn parse_rejects_surrogate_character() {
    let day: u32 = 738_000;
    let mut list = TaskListing::new();
    let add = TaskOperation::Add {
        description: "a".into(),
    };
    assert!(list.handle_operation_at(&add, &at(day, 6, 0)).is_ok());
    let mut tokens = list.encode();
    // Stream layout: task count, revision count, revised, revision id,
    // sync tag, description length, then the description's one character.
    assert_eq!(tokens[6], 'a' as u64);
    tokens[6] = 0xD800;
    assert!(TaskListing::parse(&tokens).is_none());
}

#[test]
fn parse_rejects_unordered_revisions() {
    // One task whose two revisions have increasing revision IDs, violating
    // the newest-first ordering: count, details, completions, remarks.
    let tokens = vec![
        1u64, // one task
        2,    // two revisions
        100, 5, 0, 1, 'a' as u64, // revised, revision id 5, no sync time, "a"
        200, 7, 0, 1, 'b' as u64, // revised, revision id 7, no sync time, "b"
        0,    // no completions
        0,    // no remarks
    ];
    assert!(TaskListing::parse(&tokens).is_none());
}

#[test]
fn parse_rejects_task_without_revisions() {
    let tokens = vec![1u64, 0, 0, 0];
    assert!(TaskListing::parse(&tokens).is_none());
}

#[test]
fn parse_rejects_bad_time_of_day() {
    // One completion whose hour field is 24.
    let tokens = vec![
        1u64, // one task
        1,    // one revision
        100, 0, 0, 1, 'a' as u64, // revised, revision id 0, no sync time, "a"
        1,    // one completion
        86400, 738000, 24, 0, 0, // datetime, day, hour 24 (invalid), minute, no remark
        0,    // no remarks
    ];
    assert!(TaskListing::parse(&tokens).is_none());
}

#[test]
fn parse_accepts_handwritten_stream() {
    let tokens = vec![
        1u64, // one task
        1,    // one revision
        100, 0, 1, 360, 2, 'h' as u64, 'i' as u64, // revised, rev id, sync time 360, "hi"
        1,    // one completion
        86400, 738000, 23, 59, 1, 50, 2, 'o' as u64, 'k' as u64, // with remark "ok"
        1,    // one remark
        99, 3, 'y' as u64, 'e' as u64, 's' as u64, // remark "yes"
    ];
    let list = TaskListing::parse(&tokens).unwrap();
    assert_eq!(list.total_tasks(), 1);
    let task = list.task_from_index(0).unwrap();
    assert_eq!(task.description().as_str(), "hi");
    assert_eq!(task.detail_history[0].sync_time, Some(360));
    assert_eq!(task.total_completions(), 1);
    assert!(task.completed_on(738000));
    assert_eq!(task.remarks[0].remark.as_str(), "yes");
    // And the accepted stream re-encodes to exactly the same tokens.
    assert_eq!(list.encode(), tokens);
}
