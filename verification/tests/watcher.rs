use live_md::markdown::{render_markdown_file, RenderError};
use live_md::notifier::{ChangeNotifier, Delivery};
use live_md::paths::DocPath;
use live_md::watcher::{
    handle_fs_event, is_relevant_event, relevant_documents, report_gives_signal, CreateKind,
    DataChange, EventKind, FsEvent, ModifyKind, RemoveKind, RenameMode, RenderReport,
};

fn doc(parts: &[&str]) -> DocPath {
    DocPath::new(parts.iter().map(|part| part.to_string()).collect())
}

fn event(kind: EventKind) -> FsEvent {
    FsEvent { kind, paths: Vec::new() }
}

fn event_on(kind: EventKind, paths: Vec<DocPath>) -> FsEvent {
    FsEvent { kind, paths }
}

fn drain(notifier: &mut ChangeNotifier, id: u64) -> Vec<String> {
    let mut taken = Vec::new();
    while let Delivery::Signal(signal) = notifier.try_recv(id) {
        taken.push(signal);
    }
    taken
}

#[test]
fn test_is_relevant_event() {
    // Test create events
    assert!(is_relevant_event(&event(EventKind::Create(CreateKind::File))));
    assert!(!is_relevant_event(&event(EventKind::Create(CreateKind::Folder))));

    // Test modify events
    assert!(is_relevant_event(&event(EventKind::Modify(ModifyKind::Data(DataChange::Content)))));
    assert!(is_relevant_event(&event(EventKind::Modify(ModifyKind::Name(RenameMode::From)))));

    // Test remove events
    assert!(is_relevant_event(&event(EventKind::Remove(RemoveKind::File))));
    assert!(!is_relevant_event(&event(EventKind::Remove(RemoveKind::Folder))));

    // Test irrelevant events
    assert!(!is_relevant_event(&event(EventKind::Access)));
}

#[test]
fn every_kind_is_classified() {
    let relevant = [
        EventKind::Create(CreateKind::File),
        EventKind::Modify(ModifyKind::Data(DataChange::Any)),
        EventKind::Modify(ModifyKind::Data(DataChange::Size)),
        EventKind::Modify(ModifyKind::Data(DataChange::Content)),
        EventKind::Modify(ModifyKind::Data(DataChange::Other)),
        EventKind::Modify(ModifyKind::Name(RenameMode::Any)),
        EventKind::Modify(ModifyKind::Name(RenameMode::To)),
        EventKind::Modify(ModifyKind::Name(RenameMode::From)),
        EventKind::Modify(ModifyKind::Name(RenameMode::Both)),
        EventKind::Modify(ModifyKind::Name(RenameMode::Other)),
        EventKind::Remove(RemoveKind::File),
    ];
    for kind in relevant {
        assert!(is_relevant_event(&event(kind)), "{:?}", kind);
    }
    let ignored = [
        EventKind::Any,
        EventKind::Access,
        EventKind::Other,
        EventKind::Create(CreateKind::Any),
        EventKind::Create(CreateKind::Folder),
        EventKind::Create(CreateKind::Other),
        EventKind::Modify(ModifyKind::Any),
        EventKind::Modify(ModifyKind::Metadata),
        EventKind::Modify(ModifyKind::Other),
        EventKind::Remove(RemoveKind::Any),
        EventKind::Remove(RemoveKind::Folder),
        EventKind::Remove(RemoveKind::Other),
    ];
    for kind in ignored {
        assert!(!is_relevant_event(&event(kind)), "{:?}", kind);
    }
}

#[test]
fn only_documents_of_a_relevant_event_are_rendered() {
    let paths = vec![
        doc(&["content", "a.md"]),
        doc(&["content", "image.png"]),
        doc(&["content", "docs", "b.md"]),
        doc(&["content", "md"]),
        doc(&["content", ".md"]),
        doc(&["content", "c.MD"]),
        doc(&["content", "d.md.bak"]),
        doc(&["content", "e.tar.md"]),
        doc(&[]),
    ];
    let relevant = event_on(EventKind::Modify(ModifyKind::Data(DataChange::Content)), paths.clone());
    assert_eq!(relevant_documents(&relevant), vec![0, 2, 7]);

    let ignored = event_on(EventKind::Create(CreateKind::Folder), paths.clone());
    assert_eq!(relevant_documents(&ignored), Vec::<usize>::new());

    let access = event_on(EventKind::Access, paths);
    assert_eq!(relevant_documents(&access), Vec::<usize>::new());
}

#[test]
fn successful_render_is_announced_once() {
    let mut notifier = ChangeNotifier::new(16);
    let viewer = notifier.subscribe().unwrap();
    let edited = event_on(
        EventKind::Modify(ModifyKind::Data(DataChange::Content)),
        vec![doc(&["content", "a.md"])],
    );
    assert_eq!(relevant_documents(&edited), vec![0]);
    let reports = vec![RenderReport { document: 0, outcome: Ok(()) }];
    assert_eq!(handle_fs_event(&edited, &reports, &mut notifier), 1);
    assert_eq!(drain(&mut notifier, viewer), vec!["content/a.md".to_string()]);
}

#[test]
fn failed_render_silences_no_other_document() {
    let mut notifier = ChangeNotifier::new(16);
    let viewer = notifier.subscribe().unwrap();
    let created = event_on(
        EventKind::Create(CreateKind::File),
        vec![doc(&["content", "a.md"]), doc(&["content", "b.md"]), doc(&["content", "c.md"])],
    );
    let reports = vec![
        RenderReport { document: 0, outcome: Err(RenderError::ReadError) },
        RenderReport { document: 1, outcome: Ok(()) },
        RenderReport { document: 2, outcome: Err(RenderError::WriteError) },
    ];
    assert!(!report_gives_signal(&created, &reports[0]));
    assert!(report_gives_signal(&created, &reports[1]));
    assert!(!report_gives_signal(&created, &reports[2]));
    assert_eq!(handle_fs_event(&created, &reports, &mut notifier), 1);
    assert_eq!(drain(&mut notifier, viewer), vec!["content/b.md".to_string()]);
}

#[test]
fn removed_document_is_announced_though_its_render_fails() {
    let mut notifier = ChangeNotifier::new(16);
    let viewer = notifier.subscribe().unwrap();
    let removed = event_on(EventKind::Remove(RemoveKind::File), vec![doc(&["content", "gone.md"])]);
    let reports = vec![RenderReport { document: 0, outcome: Err(RenderError::ReadError) }];
    assert_eq!(handle_fs_event(&removed, &reports, &mut notifier), 1);
    assert_eq!(drain(&mut notifier, viewer), vec!["content/gone.md".to_string()]);
}

#[test]
fn reports_that_name_no_document_give_no_signal() {
    let mut notifier = ChangeNotifier::new(16);
    let viewer = notifier.subscribe().unwrap();
    let paths = vec![doc(&["content", "a.md"]), doc(&["content", "notes.txt"])];

    let touched = event_on(EventKind::Modify(ModifyKind::Metadata), paths.clone());
    let reports = vec![RenderReport { document: 0, outcome: Ok(()) }];
    assert_eq!(handle_fs_event(&touched, &reports, &mut notifier), 0);

    let edited = event_on(EventKind::Modify(ModifyKind::Data(DataChange::Any)), paths);
    let reports = vec![
        RenderReport { document: 1, outcome: Ok(()) },
        RenderReport { document: 7, outcome: Ok(()) },
    ];
    assert_eq!(handle_fs_event(&edited, &reports, &mut notifier), 0);
    assert_eq!(drain(&mut notifier, viewer), Vec::<String>::new());
}

#[test]
fn signals_follow_the_order_of_the_reports() {
    let mut notifier = ChangeNotifier::new(16);
    let viewer = notifier.subscribe().unwrap();
    let renamed = event_on(
        EventKind::Modify(ModifyKind::Name(RenameMode::Both)),
        vec![doc(&["content", "old.md"]), doc(&["content", "new.md"])],
    );
    let reports = vec![
        RenderReport { document: 1, outcome: Ok(()) },
        RenderReport { document: 0, outcome: Ok(()) },
        RenderReport { document: 1, outcome: Ok(()) },
    ];
    assert_eq!(handle_fs_event(&renamed, &reports, &mut notifier), 3);
    assert_eq!(
        drain(&mut notifier, viewer),
        vec!["content/new.md".to_string(), "content/old.md".to_string(), "content/new.md".to_string()]
    );
}

#[test]
fn edit_is_rendered_and_announced_once() {
    let root = doc(&["content"]);
    let source = doc(&["content", "a.md"]);
    let mut notifier = ChangeNotifier::new(16);
    let viewer = notifier.subscribe().unwrap();

    let before = render_markdown_file(&source, &root, Some("# A")).unwrap();
    assert!(before.html.contains("<h1>A</h1>"));

    let edited = event_on(
        EventKind::Modify(ModifyKind::Data(DataChange::Content)),
        vec![doc(&["content", "a.md"])],
    );
    let mut reports = Vec::new();
    for place in relevant_documents(&edited) {
        let rendered = render_markdown_file(&edited.paths[place], &root, Some("# A, edited"));
        let after = rendered.as_ref().unwrap();
        assert_eq!(after.path.to_string(), "a.html");
        assert!(after.html.contains("<h1>A, edited</h1>"));
        assert!(!after.html.contains("<h1>A</h1>"));
        reports.push(RenderReport { document: place, outcome: rendered.map(|_| ()) });
    }
    assert_eq!(handle_fs_event(&edited, &reports, &mut notifier), 1);

    assert!(matches!(notifier.try_recv(viewer), Delivery::Signal(signal) if signal == "content/a.md"));
    assert!(matches!(notifier.try_recv(viewer), Delivery::Empty));
}
