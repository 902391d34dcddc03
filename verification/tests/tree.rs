use multiiso::tree::{
    copy_recurse, EntryKind, TreeAction, TreeEvent, TreeNext, TreeRun, TreeStep,
};

/// The actions of a run that is resumed with these events, and its end.
fn run(events: Vec<TreeEvent>) -> (Vec<TreeAction>, Option<Result<(), String>>) {
    let mut actions = Vec::new();
    let mut next = copy_recurse();
    let mut events = events.into_iter();
    loop {
        let present = match next {
            TreeNext::Go(present, action) => {
                actions.push(action);
                present
            }
            TreeNext::Finish(outcome) => {
                assert_eq!(events.next(), None);
                return (actions, Some(outcome));
            }
        };
        next = match events.next() {
            Some(event) => present.resume(event),
            None => return (actions, None),
        };
    }
}

#[test]
fn an_empty_directory_is_only_opened() {
    assert_eq!(
        run(vec![TreeEvent::Done, TreeEvent::End]),
        (vec![TreeAction::Open(vec![]), TreeAction::ReadEntry], Some(Ok(())))
    );
}

#[test]
fn files_and_directories_are_copied_and_nothing_else() {
    let events = vec![
        TreeEvent::Done,
        TreeEvent::Entry(0, EntryKind::File),
        TreeEvent::Done,
        TreeEvent::Done,
        TreeEvent::Entry(1, EntryKind::Other),
        TreeEvent::Entry(2, EntryKind::Directory),
        TreeEvent::Done,
        TreeEvent::Done,
        TreeEvent::Entry(3, EntryKind::Directory),
        TreeEvent::Done,
        TreeEvent::Done,
        TreeEvent::Entry(4, EntryKind::File),
        TreeEvent::Done,
        TreeEvent::Done,
        TreeEvent::End,
        TreeEvent::End,
        TreeEvent::Entry(5, EntryKind::File),
        TreeEvent::Done,
        TreeEvent::Done,
        TreeEvent::End,
    ];
    assert_eq!(
        run(events),
        (
            vec![
                TreeAction::Open(vec![]),
                TreeAction::ReadEntry,
                TreeAction::CreateDir(vec![]),
                TreeAction::CopyFile(vec![0]),
                TreeAction::ReadEntry,
                TreeAction::ReadEntry,
                TreeAction::CreateDir(vec![2]),
                TreeAction::Open(vec![2]),
                TreeAction::ReadEntry,
                TreeAction::CreateDir(vec![2, 3]),
                TreeAction::Open(vec![2, 3]),
                TreeAction::ReadEntry,
                TreeAction::CreateDir(vec![2, 3]),
                TreeAction::CopyFile(vec![2, 3, 4]),
                TreeAction::ReadEntry,
                TreeAction::ReadEntry,
                TreeAction::ReadEntry,
                TreeAction::CreateDir(vec![]),
                TreeAction::CopyFile(vec![5]),
                TreeAction::ReadEntry,
            ],
            Some(Ok(()))
        )
    );
}

#[test]
fn a_failure_ends_the_copying_of_a_directory() {
    let failed = || TreeEvent::Failed(String::from("why"));
    assert_eq!(
        run(vec![failed()]),
        (vec![TreeAction::Open(vec![])], Some(Err(String::from("why"))))
    );
    for step in [
        TreeStep::Opening,
        TreeStep::Reading,
        TreeStep::Preparing(1),
        TreeStep::Copying,
        TreeStep::Creating(1),
    ] {
        assert_eq!(
            TreeRun { path: vec![7], step }.resume(failed()),
            TreeNext::Finish(Err(String::from("why")))
        );
    }
}
