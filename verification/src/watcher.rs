//! The decisions of the watch loop: which file-system events matter, which
//! of an event's paths are documents to render again, and which renders are
//! announced to the subscribers.

use crate::markdown::RenderError;
use crate::notifier::ChangeNotifier;
use crate::paths::{is_document, joined, path_views, DocPath};
use vstd::prelude::*;

verus! {

/// What was created.
#[derive(Debug, Clone, Copy, PartialEq, Eq, Structural)]
pub enum CreateKind {
    Any,
    File,
    Folder,
    Other,
}

/// What of a file's content changed.
#[derive(Debug, Clone, Copy, PartialEq, Eq, Structural)]
pub enum DataChange {
    Any,
    Size,
    Content,
    Other,
}

/// Which side of a rename an event reports.
#[derive(Debug, Clone, Copy, PartialEq, Eq, Structural)]
pub enum RenameMode {
    Any,
    To,
    From,
    Both,
    Other,
}

/// What was modified.
#[derive(Debug, Clone, Copy, PartialEq, Eq, Structural)]
pub enum ModifyKind {
    Any,
    Data(DataChange),
    Metadata,
    Name(RenameMode),
    Other,
}

/// What was removed.
#[derive(Debug, Clone, Copy, PartialEq, Eq, Structural)]
pub enum RemoveKind {
    Any,
    File,
    Folder,
    Other,
}

/// The kind of a file-system event.
#[derive(Debug, Clone, Copy, PartialEq, Eq, Structural)]
pub enum EventKind {
    Any,
    Access,
    Create(CreateKind),
    Modify(ModifyKind),
    Remove(RemoveKind),
    Other,
}

/// A file-system event: its kind and the paths it is about.
#[derive(Debug)]
pub struct FsEvent {
    pub kind: EventKind,
    pub paths: Vec<DocPath>,
}

/// How the render of one of an event's documents ended. `document` is the
/// place of the document among the event's paths.
#[derive(Debug, Clone, Copy)]
pub struct RenderReport {
    pub document: usize,
    pub outcome: Result<(), RenderError>,
}

/// Whether an event of this kind can change what a document's artifact
/// should hold: a file was created, its content was modified, it was
/// renamed, or it was removed.
pub open spec fn is_relevant(kind: EventKind) -> bool {
    match kind {
        EventKind::Create(CreateKind::File) => true,
        EventKind::Modify(ModifyKind::Data(_)) => true,
        EventKind::Modify(ModifyKind::Name(_)) => true,
        EventKind::Remove(RemoveKind::File) => true,
        _ => false,
    }
}

/// Whether a render that ended with `outcome`, set off by an event of this
/// kind, is announced: every successful render is, and so is the removal of
/// a file, whose render cannot succeed.
pub open spec fn is_announced(kind: EventKind, outcome: Result<(), RenderError>) -> bool {
    outcome is Ok || kind == EventKind::Remove(RemoveKind::File)
}

/// Whether a report leads to a signal: it names one of the event's paths,
/// the event is relevant, the path is a document, and the render is
/// announced.
pub open spec fn gives_signal(
    kind: EventKind,
    paths: Seq<Seq<Seq<char>>>,
    report: RenderReport,
) -> bool {
    &&& report.document < paths.len()
    &&& is_relevant(kind)
    &&& is_document(paths[report.document as int])
    &&& is_announced(kind, report.outcome)
}

/// The signals that the reports of one event lead to, in the order of the
/// reports: for each report that gives one, the path of its document as
/// text.
pub open spec fn signals(
    kind: EventKind,
    paths: Seq<Seq<Seq<char>>>,
    reports: Seq<RenderReport>,
) -> Seq<Seq<char>>
    decreases reports.len(),
{
    if reports.len() == 0 {
        Seq::empty()
    } else if gives_signal(kind, paths, reports.last()) {
        signals(kind, paths, reports.drop_last()).push(
            joined(paths[reports.last().document as int]),
        )
    } else {
        signals(kind, paths, reports.drop_last())
    }
}

/// Events on folders alone, on access and on metadata never count; the
/// creation, the change of content, the renaming (seen from either side) and
/// the removal of a file always do.
pub proof fn filter_classification(kind: EventKind)
    ensures
        kind == EventKind::Create(CreateKind::Folder) ==> !is_relevant(kind),
        kind == EventKind::Remove(RemoveKind::Folder) ==> !is_relevant(kind),
        kind is Access ==> !is_relevant(kind),
        kind == EventKind::Modify(ModifyKind::Metadata) ==> !is_relevant(kind),
        kind == EventKind::Create(CreateKind::File) ==> is_relevant(kind),
        (exists|change: DataChange| kind == EventKind::Modify(ModifyKind::Data(change)))
            ==> is_relevant(kind),
        (exists|mode: RenameMode| kind == EventKind::Modify(ModifyKind::Name(mode)))
            ==> is_relevant(kind),
        kind == EventKind::Remove(RemoveKind::File) ==> is_relevant(kind),
{
}

/// A report that gives a signal gives it whatever the other reports of the
/// event say: the failed render of one document silences no other.
pub proof fn failure_silences_no_other(
    kind: EventKind,
    paths: Seq<Seq<Seq<char>>>,
    reports: Seq<RenderReport>,
    at: int,
)
    requires
        0 <= at < reports.len(),
        gives_signal(kind, paths, reports[at]),
    ensures
        signals(kind, paths, reports).contains(joined(paths[reports[at].document as int])),
    decreases reports.len(),
{
    let wanted = joined(paths[reports[at].document as int]);
    let earlier = signals(kind, paths, reports.drop_last());
    if at == reports.len() - 1 {
        assert(earlier.push(wanted)[earlier.len() as int] == wanted);
    } else {
        failure_silences_no_other(kind, paths, reports.drop_last(), at);
        let k = choose|k: int| 0 <= k < earlier.len() && earlier[k] == wanted;
        assert(signals(kind, paths, reports)[k] == wanted);
    }
}

/// Whether the event can change what a document's artifact should hold.
pub fn is_relevant_event(event: &FsEvent) -> (relevant: bool)
    ensures
        relevant == is_relevant(event.kind),
{
    match event.kind {
        EventKind::Create(CreateKind::File) => true,
        EventKind::Modify(ModifyKind::Data(_)) => true,
        EventKind::Modify(ModifyKind::Name(_)) => true,
        EventKind::Remove(RemoveKind::File) => true,
        _ => false,
    }
}

/// The documents to render for an event: none where the event is not
/// relevant, else the places of those of its paths that are documents, in
/// rising order.
pub fn relevant_documents(event: &FsEvent) -> (plan: Vec<usize>)
    ensures
        !is_relevant(event.kind) ==> plan@.len() == 0,
        forall|k: int|
            0 <= k < plan@.len() ==> (#[trigger] plan@[k]) < event.paths@.len() && is_relevant(
                event.kind,
            ) && is_document(event.paths@[plan@[k] as int]@),
        forall|a: int, b: int| 0 <= a < b < plan@.len() ==> plan@[a] < plan@[b],
        forall|i: int|
            0 <= i < event.paths@.len() && is_relevant(event.kind) && is_document(
                (#[trigger] event.paths@[i])@,
            ) ==> plan@.contains(i as usize),
{
    let mut plan: Vec<usize> = Vec::new();
    if !is_relevant_event(event) {
        return plan;
    }
    let mut i: usize = 0;
    while i < event.paths.len()
        invariant
            i <= event.paths@.len(),
            is_relevant(event.kind),
            forall|k: int|
                0 <= k < plan@.len() ==> (#[trigger] plan@[k]) < i && is_document(
                    event.paths@[plan@[k] as int]@,
                ),
            forall|a: int, b: int| 0 <= a < b < plan@.len() ==> plan@[a] < plan@[b],
            forall|j: int|
                0 <= j < i && is_document((#[trigger] event.paths@[j])@) ==> plan@.contains(
                    j as usize,
                ),
        decreases event.paths@.len() - i,
    {
        if event.paths[i].is_markdown() {
            let ghost before = plan@;
            plan.push(i);
            assert(plan@[before.len() as int] == i);
            assert forall|j: int|
                0 <= j < i + 1 && is_document((#[trigger] event.paths@[j])@) implies plan@.contains(
                j as usize,
            ) by {
                if j < i {
                    let k = choose|k: int| 0 <= k < before.len() && before[k] == j as usize;
                    assert(plan@[k] == j as usize);
                }
            }
        }
        i = i + 1;
    }
    plan
}

/// Whether one report leads to a signal.
pub fn report_gives_signal(event: &FsEvent, report: &RenderReport) -> (gives: bool)
    ensures
        gives == gives_signal(event.kind, path_views(event.paths@), *report),
{
    if report.document >= event.paths.len() || !is_relevant_event(event) {
        return false;
    }
    if !event.paths[report.document].is_markdown() {
        return false;
    }
    match report.outcome {
        Ok(_) => true,
        Err(_) => match event.kind {
            EventKind::Remove(RemoveKind::File) => true,
            _ => false,
        },
    }
}

/// Ends the handling of one event: publishes, in the order of the reports,
/// the path of each document whose report gives a signal. Returns the number
/// of signals published.
pub fn handle_fs_event(event: &FsEvent, reports: &Vec<RenderReport>, notifier: &mut ChangeNotifier)
    -> (published: usize)
    requires
        old(notifier).wf(),
    ensures
        final(notifier).wf(),
        final(notifier)@ == old(notifier)@.published_all(
            signals(event.kind, path_views(event.paths@), reports@),
        ),
        published == signals(event.kind, path_views(event.paths@), reports@).len(),
{
    let mut published: usize = 0;
    let mut i: usize = 0;
    assert(reports@.subrange(0, 0) =~= Seq::<RenderReport>::empty());
    while i < reports.len()
        invariant
            i <= reports@.len(),
            notifier.wf(),
            published <= i,
            published == signals(
                event.kind,
                path_views(event.paths@),
                reports@.subrange(0, i as int),
            ).len(),
            notifier@ == old(notifier)@.published_all(
                signals(event.kind, path_views(event.paths@), reports@.subrange(0, i as int)),
            ),
        decreases reports@.len() - i,
    {
        let ghost done = signals(
            event.kind,
            path_views(event.paths@),
            reports@.subrange(0, i as int),
        );
        assert(reports@.subrange(0, i + 1).drop_last() =~= reports@.subrange(0, i as int));
        if report_gives_signal(event, &reports[i]) {
            let path = event.paths[reports[i].document].to_string();
            notifier.publish(path.as_str());
            published = published + 1;
            assert(done.push(path@).drop_last() =~= done);
        }
        i = i + 1;
    }
    assert(reports@.subrange(0, reports@.len() as int) =~= reports@);
    published
}

} // verus!
