use chain::clock::Moment;
use chain::task::TaskError;
use chain::tasklisting::TaskListing;
use chain::taskoperation::TaskOperation;

#[test]
fn add_requires_description() {
    let mut list = TaskListing::new();

    let add = TaskOperation::Add {
        description: "".into(),
    };

    let result = list.handle_operation(&add);
    assert!(result.is_err());
    assert!(result.unwrap_err() == TaskError::MissingDescription);
}

#[test]
fn adds_with_description() {
    let mut list = TaskListing::new();

    let add = TaskOperation::Add {
        description: "non-zero length".into(),
    };

    let result = list.handle_operation(&add);
    assert!(result.is_ok());
}

#[test]
fn reorder_no_tasks() {
    let mut list = TaskListing::new();

    let reorder = TaskOperation::Reorder { from: 0, to: 0 };

    let result = list.handle_operation(&reorder);
    assert!(result.is_err());
    assert!(result.unwrap_err() == TaskError::NotFound);
}

#[test]
fn reorder_same_indexes() {
    let mut list = TaskListing::new();

    let add = TaskOperation::Add {
        description: "first".into(),
    };
    assert!(list.handle_operation(&add).is_ok());

    let reorder = TaskOperation::Reorder { from: 0, to: 0 };

    let result = list.handle_operation(&reorder);
    assert!(result.is_err());
    assert!(result.unwrap_err() == TaskError::RedundantMove);
}

#[test]
fn reorder_same_indexes_no_tasks() {
    let mut list = TaskListing::new();

    let reorder = TaskOperation::Reorder { from: 0, to: 0 };

    let result = list.handle_operation(&reorder);
    assert!(result.is_err());
    assert!(result.unwrap_err() == TaskError::NotFound);
}

#[test]
fn reorder_out_of_bounds() {
    let mut list = TaskListing::new();

    let add = TaskOperation::Add {
        description: "first".into(),
    };
    assert!(list.handle_operation(&add).is_ok());

    let reorder = TaskOperation::Reorder { from: 0, to: 100 };

    let result = list.handle_operation(&reorder);
    assert!(result.is_err());
    assert!(result.unwrap_err() == TaskError::NotFound);
}

#[test]
fn mark_complete_oob() {
    // Both with and without a remark
    let mut list = TaskListing::new();

    // No Remark
    let complete = TaskOperation::MarkComplete {
        task_index: 0,
        remark: None,
    };

    let result = list.handle_operation(&complete);
    assert!(result.is_err());
    assert!(result.unwrap_err() == TaskError::NotFound);

    // With a remark
    let complete = TaskOperation::MarkComplete {
        task_index: 0,
        remark: Some("with a remark".into()),
    };

    let result = list.handle_operation(&complete);
    assert!(result.is_err());
    assert!(result.unwrap_err() == TaskError::NotFound);
}

#[test]
fn mark_complete_no_remark() {
    let mut list = TaskListing::new();

    let add = TaskOperation::Add {
        description: "first".into(),
    };
    assert!(list.handle_operation(&add).is_ok());

    let complete = TaskOperation::MarkComplete {
        task_index: 0,
        remark: None,
    };

    let result = list.handle_operation(&complete);
    assert!(result.is_ok());
}

#[test]
fn mark_complete_with_remark() {
    let mut list = TaskListing::new();

    let add = TaskOperation::Add {
        description: "first".into(),
    };
    assert!(list.handle_operation(&add).is_ok());

    let complete = TaskOperation::MarkComplete {
        task_index: 0,
        remark: Some("with some remark".into()),
    };

    let result = list.handle_operation(&complete);
    assert!(result.is_ok());
}

#[test]
fn mark_complete_twice() {
    // NOTE: this test could potentially fail if the two commands to mark the task complete
    // happen on opposite sides of the "midnight" boundary. Unlikely, but possible.
    let mut list = TaskListing::new();

    let add = TaskOperation::Add {
        description: "first".into(),
    };
    assert!(list.handle_operation(&add).is_ok());

    let complete = TaskOperation::MarkComplete {
        task_index: 0,
        remark: Some("with some remark".into()),
    };

    let result = list.handle_operation(&complete);
    assert!(result.is_ok());

    let result = list.handle_operation(&complete);
    assert!(result.is_err());
    assert!(result.unwrap_err() == TaskError::AlreadyCompleted);
}

#[test]
fn remark_oob() {
    let mut list = TaskListing::new();

    let remark = TaskOperation::AddRemark {
        task_index: 0,
        remark: "with some remark".into(),
    };

    let result = list.handle_operation(&remark);
    assert!(result.is_err());
    assert!(result.unwrap_err() == TaskError::NotFound);
}

#[test]
fn remark_on_incomplete() {
    let mut list = TaskListing::new();

    let add = TaskOperation::Add {
        description: "first".into(),
    };
    assert!(list.handle_operation(&add).is_ok());

    let remark = TaskOperation::AddRemark {
        task_index: 0,
        remark: "with some remark".into(),
    };

    let result = list.handle_operation(&remark);
    assert!(result.is_ok());
}

#[test]
fn remark_on_completed() {
    let mut list = TaskListing::new();

    let add = TaskOperation::Add {
        description: "first".into(),
    };
    assert!(list.handle_operation(&add).is_ok());

    let complete = TaskOperation::MarkComplete {
        task_index: 0,
        remark: Some("with some remark".into()),
    };

    let result = list.handle_operation(&complete);
    assert!(result.is_ok());

    let remark = TaskOperation::AddRemark {
        task_index: 0,
        remark: "with another remark".into(),
    };

    let result = list.handle_operation(&remark);
    assert!(result.is_ok());
}

fn noon(day: u32) -> Moment {
    Moment {
        utc_seconds: day as u64 * 86400 + 43200,
        local_day: day,
        hour: 12,
        minute: 0,
    }
}

#[test]
fn mark_complete_twice_same_day_deterministic() {
    let mut list = TaskListing::new();
    let day: u32 = 738000;

    let add = TaskOperation::Add {
        description: "first".into(),
    };
    assert!(list.handle_operation_at(&add, &noon(day)).is_ok());

    let complete = TaskOperation::MarkComplete {
        task_index: 0,
        remark: None,
    };
    assert!(list.handle_operation_at(&complete, &noon(day)).is_ok());

    let result = list.handle_operation_at(&complete, &noon(day));
    assert!(result.unwrap_err() == TaskError::AlreadyCompleted);
    assert_eq!(list.task_from_index(0).unwrap().total_completions(), 1);
}

#[test]
fn mark_complete_next_day_succeeds() {
    let mut list = TaskListing::new();
    let day: u32 = 738000;

    let add = TaskOperation::Add {
        description: "daily".into(),
    };
    assert!(list.handle_operation_at(&add, &noon(day)).is_ok());

    let complete = TaskOperation::MarkComplete {
        task_index: 0,
        remark: None,
    };
    assert!(list.handle_operation_at(&complete, &noon(day)).is_ok());
    assert!(list.handle_operation_at(&complete, &noon(day + 1)).is_ok());
    assert_eq!(list.task_from_index(0).unwrap().total_completions(), 2);
}

#[test]
fn mark_complete_one_past_end() {
    let mut list = TaskListing::new();
    let day: u32 = 738000;

    let add = TaskOperation::Add {
        description: "only".into(),
    };
    assert!(list.handle_operation_at(&add, &noon(day)).is_ok());

    let complete = TaskOperation::MarkComplete {
        task_index: 1,
        remark: None,
    };
    let result = list.handle_operation_at(&complete, &noon(day));
    assert!(result.unwrap_err() == TaskError::NotFound);

    let remark = TaskOperation::AddRemark {
        task_index: 1,
        remark: "nope".into(),
    };
    let result = list.handle_operation_at(&remark, &noon(day));
    assert!(result.unwrap_err() == TaskError::NotFound);
}

#[test]
fn reorder_splice_and_inverse() {
    let mut list = TaskListing::new();
    let day: u32 = 738000;
    for name in ["a", "b", "c", "d"] {
        let add = TaskOperation::Add {
            description: name.into(),
        };
        assert!(list.handle_operation_at(&add, &noon(day)).is_ok());
    }

    // [A,B,C,D] -> move 0 to 2 -> [B,C,A,D]
    let forward = TaskOperation::Reorder { from: 0, to: 2 };
    assert!(list.handle_operation_at(&forward, &noon(day)).is_ok());
    let names: Vec<String> = list
        .task_iter()
        .iter()
        .map(|t| t.description().clone())
        .collect();
    assert_eq!(names, vec!["b", "c", "a", "d"]);

    // move 2 back to 0 -> [A,B,C,D]
    let back = TaskOperation::Reorder { from: 2, to: 0 };
    assert!(list.handle_operation_at(&back, &noon(day)).is_ok());
    let names: Vec<String> = list
        .task_iter()
        .iter()
        .map(|t| t.description().clone())
        .collect();
    assert_eq!(names, vec!["a", "b", "c", "d"]);
}

#[test]
fn add_appends_at_end() {
    let mut list = TaskListing::new();
    let day: u32 = 738000;
    let add = TaskOperation::Add {
        description: "first".into(),
    };
    assert!(list.handle_operation_at(&add, &noon(day)).is_ok());
    assert_eq!(list.total_tasks(), 1);
    let add = TaskOperation::Add {
        description: "zweite Aufgabe".into(),
    };
    assert!(list.handle_operation_at(&add, &noon(day)).is_ok());
    assert_eq!(list.total_tasks(), 2);
    assert_eq!(list.task_from_index(1).unwrap().description().as_str(), "zweite Aufgabe");
    assert!(list.task_from_index(2).is_none());
}

#[test]
fn error_descriptions() {
    assert_eq!(
        TaskError::MissingDescription.description(),
        "Can't add a task without a description"
    );
    assert_eq!(TaskError::AlreadyCompleted.description(), "Task was already completed");
    assert_eq!(TaskError::NotFound.description(), "Couldn't find task");
    assert_eq!(TaskError::RedundantMove.description(), "Can't move task to its own index");
    assert_eq!(TaskError::StoreFailed.description(), "Can't store task data to disk");
}

#[test]
fn task_queries() {
    let mut task = chain::task::Task::new("stretch".into(), 11 * 86400 + 7200);
    // created on UTC day 11
    assert!(!task.existed_on(10));
    assert!(task.existed_on(11));
    assert!(task.existed_on(12));

    let m = Moment {
        utc_seconds: 12 * 86400 + 3600,
        local_day: 738100,
        hour: 9,
        minute: 30,
    };
    assert!(task.completed_today(738100).is_none());
    assert!(task.mark_complete(&Some("done early".into()), &m).is_ok());
    assert!(task.completed_on(738100));
    assert!(!task.completed_on(738101));
    let c = task.completed_today(738100).unwrap();
    assert_eq!(c.hour, 9);
    assert_eq!(c.minute, 30);
    assert_eq!(task.details().unwrap().description().as_str(), "stretch");
}
