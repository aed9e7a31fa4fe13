//! Live preview of a tree of Markdown documents: mapping a source document to
//! its artifact, rendering pages and the index, classifying file-system
//! events and fanning out reload signals to subscribers.

pub mod config;
pub mod markdown;
pub mod notifier;
pub mod paths;
pub mod text;
pub mod watcher;

use crate::markdown::{
    get_output_path, is_render_of, mapped_path, render_markdown_file, RenderError,
    RenderedDocument,
};
use crate::paths::{
    file_stem, is_document, joined, path_views, places, sort_order, sorted_order, stem_of,
    DocPath,
};
use crate::text::{append_chars, chars_of, replace_chars, spaced, spaced_chars, string_of};
use vstd::prelude::*;

verus! {

/// Opening of every rendered page, up to the place of the document's markup.
pub const PAGE_START: &'static str = "<!DOCTYPE html>
<html lang=\"en\">
<head>
    <meta charset=\"UTF-8\">
    <meta name=\"viewport\" content=\"width=device-width, initial-scale=1.0\">
    <title>{{title}}</title>
    <style>
        body { font-family: -apple-system, BlinkMacSystemFont, \"Segoe UI\", Helvetica, Arial, sans-serif; line-height: 1.6; color: #24292e; margin: 0; }
        main { max-width: 860px; margin: 0 auto; padding: 2rem 1rem; }
        pre { background: #f6f8fa; padding: 1rem; overflow: auto; border-radius: 6px; }
        code { font-family: SFMono-Regular, Consolas, \"Liberation Mono\", Menlo, monospace; }
        table { border-collapse: collapse; }
        th, td { border: 1px solid #dfe2e5; padding: 6px 13px; }
        blockquote { color: #6a737d; border-left: 0.25em solid #dfe2e5; margin: 0; padding: 0 1em; }
        .path { color: #6a737d; font-size: 0.85em; margin-left: 0.5em; }
    </style>
</head>
<body>
    <main>
";

/// Closing of every rendered page: the script that reloads the page on each
/// message of the event stream, and the end of the document.
pub const PAGE_END: &'static str = "    </main>
    <script>
        const events = new EventSource(\"/events\");
        events.onmessage = function () { window.location.reload(); };
    </script>
</body>
</html>
";

/// Opening of the index page, up to the first entry of the list.
pub const INDEX_START: &'static str = "<!DOCTYPE html>
<html lang=\"en\">
<head>
    <meta charset=\"UTF-8\">
    <meta name=\"viewport\" content=\"width=device-width, initial-scale=1.0\">
    <title>Index</title>
    <style>
        body { font-family: -apple-system, BlinkMacSystemFont, \"Segoe UI\", Helvetica, Arial, sans-serif; line-height: 1.6; color: #24292e; margin: 0; }
        main { max-width: 860px; margin: 0 auto; padding: 2rem 1rem; }
        .path { color: #6a737d; font-size: 0.85em; margin-left: 0.5em; }
    </style>
</head>
<body>
    <main>
    <h1>Documents</h1>
    <ul>
";

/// Closing of the index page, behind the last entry of the list.
pub const INDEX_END: &'static str = "    </ul>
    </main>
    <script>
        const events = new EventSource(\"/events\");
        events.onmessage = function () { window.location.reload(); };
    </script>
</body>
</html>
";

/// What stands before the link of an index entry.
pub const ENTRY_START: &'static str = "        <li><a href=\"";

/// What stands between the link of an index entry and its text.
pub const ENTRY_MIDDLE: &'static str = "\">";

/// What stands behind the text of an index entry.
pub const ENTRY_END: &'static str = "</a></li>\n";

/// What stands before the directory in the label of an index entry.
pub const LABEL_START: &'static str = "<span class=\"path\">in ";

/// What stands behind the directory in the label of an index entry.
pub const LABEL_END: &'static str = "</span>";

/// The mark in the page shell that stands for the title.
pub const TITLE_MARK: &'static str = "{{title}}";

/// A full page: the shell around `content`, with every title mark in the
/// whole text replaced by `title`.
pub open spec fn page(content: Seq<char>, title: Seq<char>) -> Seq<char> {
    crate::text::replace_all(PAGE_START@ + content + PAGE_END@, TITLE_MARK@, title)
}

/// Wraps a markup fragment in the page shell and puts the title in.
pub fn wrap_html_template(content: &str, title: &str) -> (html: String)
    ensures
        html@ == page(content@, title@),
{
    let mut whole = chars_of(PAGE_START);
    let body = chars_of(content);
    append_chars(&mut whole, &body);
    let end = chars_of(PAGE_END);
    append_chars(&mut whole, &end);
    let mark = chars_of(TITLE_MARK);
    let with = chars_of(title);
    let out = replace_chars(&whole, &mark, &with);
    string_of(&out)
}

/// The label that names the directory of a listed document; empty for a
/// document at the top of the content tree.
pub open spec fn parent_label(parent: Seq<Seq<char>>) -> Seq<char> {
    if parent.len() == 0 {
        Seq::empty()
    } else {
        LABEL_START@ + joined(parent) + LABEL_END@
    }
}

/// The entry of the index for one source document: a link to its artifact,
/// relative to the output root, with the document's title as text and its
/// directory as label. Empty for a path that has no artifact.
pub open spec fn index_entry(source: Seq<Seq<char>>, root: Seq<Seq<char>>) -> Seq<char> {
    match mapped_path(source, root) {
        Some(artifact) => ENTRY_START@ + joined(artifact) + ENTRY_MIDDLE@ + spaced(
            file_stem(source.last()),
        ) + parent_label(source.subrange(root.len() as int, source.len() - 1)) + ENTRY_END@,
        None => Seq::empty(),
    }
}

/// The entries of the documents at the places given by `order`, one after
/// the other.
pub open spec fn index_entries(
    documents: Seq<Seq<Seq<char>>>,
    root: Seq<Seq<char>>,
    order: Seq<int>,
) -> Seq<char>
    decreases order.len(),
{
    if order.len() == 0 {
        Seq::empty()
    } else {
        index_entries(documents, root, order.drop_last()) + index_entry(
            documents[order.last()],
            root,
        )
    }
}

/// The index page: one entry for each document, in rising order of the
/// source paths.
pub open spec fn index_page(documents: Seq<Seq<Seq<char>>>, root: Seq<Seq<char>>) -> Seq<char> {
    INDEX_START@ + index_entries(documents, root, sorted_order(documents)) + INDEX_END@
}

/// The index entry of one source document.
pub fn index_entry_for(source: &DocPath, content_root: &DocPath) -> (entry: Vec<char>)
    ensures
        entry@ == index_entry(source@, content_root@),
{
    let mut entry: Vec<char> = Vec::new();
    match get_output_path(source, content_root) {
        Ok(artifact) => {
            let n = source.len();
            let start = content_root.len();
            append_chars(&mut entry, &chars_of(ENTRY_START));
            append_chars(&mut entry, &chars_of(artifact.to_string().as_str()));
            append_chars(&mut entry, &chars_of(ENTRY_MIDDLE));
            let name = source.segment_chars(n - 1);
            append_chars(&mut entry, &spaced_chars(&stem_of(&name)));
            if n - 1 > start {
                let mut parent: Vec<String> = Vec::new();
                let mut i: usize = start;
                while i < n - 1
                    invariant
                        start <= i <= n - 1,
                        n == source@.len(),
                        parent@.len() == i - start,
                        forall|j: int|
                            0 <= j < i - start ==> parent@[j]@ == source@[start + j],
                    decreases n - 1 - i,
                {
                    parent.push(source.segments[i].clone());
                    i = i + 1;
                }
                let parent = DocPath::new(parent);
                assert(parent@ =~= source@.subrange(start as int, n - 1));
                append_chars(&mut entry, &chars_of(LABEL_START));
                append_chars(&mut entry, &chars_of(parent.to_string().as_str()));
                append_chars(&mut entry, &chars_of(LABEL_END));
            }
            append_chars(&mut entry, &chars_of(ENTRY_END));
            assert(entry@ =~= index_entry(source@, content_root@));
        },
        Err(_) => {},
    }
    entry
}

/// Builds the index page for the given source documents: a list of links to
/// their artifacts, in rising order of the source paths.
pub fn generate_index_html(content_root: &DocPath, documents: &Vec<DocPath>) -> (html: String)
    ensures
        html@ == index_page(path_views(documents@), content_root@),
{
    let order = sort_order(documents);
    let ghost views = path_views(documents@);
    let ghost sorted = sorted_order(views);
    let mut page = chars_of(INDEX_START);
    let mut k: usize = 0;
    assert(sorted.subrange(0, 0) =~= Seq::<int>::empty());
    assert(page@ =~= INDEX_START@ + Seq::<char>::empty());
    while k < order.len()
        invariant
            k <= order@.len(),
            views == path_views(documents@),
            sorted == places(order@),
            forall|j: int| 0 <= j < order@.len() ==> (#[trigger] order@[j]) < documents@.len(),
            page@ == INDEX_START@ + index_entries(
                views,
                content_root@,
                sorted.subrange(0, k as int),
            ),
        decreases order@.len() - k,
    {
        let ghost done = sorted.subrange(0, k as int);
        let ghost next = sorted.subrange(0, k + 1);
        assert(next.drop_last() =~= done);
        assert(next.last() == order@[k as int]);
        let entry = index_entry_for(&documents[order[k]], content_root);
        append_chars(&mut page, &entry);
        assert(page@ =~= INDEX_START@ + index_entries(views, content_root@, next));
        k = k + 1;
    }
    assert(sorted.subrange(0, order@.len() as int) =~= sorted);
    append_chars(&mut page, &chars_of(INDEX_END));
    string_of(&page)
}

/// What an entry of a directory is.
#[derive(Debug, Clone, Copy, PartialEq, Eq, Structural)]
pub enum EntryKind {
    File,
    Directory,
    Other,
}

/// One entry of a directory of the content tree.
#[derive(Debug)]
pub struct TreeEntry {
    pub path: DocPath,
    pub kind: EntryKind,
}

/// The paths of the entries that are source documents: files that bear the
/// document extension, in the order of the entries.
pub open spec fn collected(entries: Seq<TreeEntry>) -> Seq<Seq<Seq<char>>>
    decreases entries.len(),
{
    if entries.len() == 0 {
        Seq::empty()
    } else if entries.last().kind == EntryKind::File && is_document(entries.last().path@) {
        collected(entries.drop_last()).push(entries.last().path@)
    } else {
        collected(entries.drop_last())
    }
}

/// The places of the entries that are directories, in rising order.
pub open spec fn subdirectories(entries: Seq<TreeEntry>) -> Seq<int>
    decreases entries.len(),
{
    if entries.len() == 0 {
        Seq::empty()
    } else if entries.last().kind == EntryKind::Directory {
        subdirectories(entries.drop_last()).push(entries.len() - 1)
    } else {
        subdirectories(entries.drop_last())
    }
}

/// Goes through the entries of one directory: adds the source documents
/// among them to `files` and returns the places of the directories, which
/// are to be gone through in turn.
pub fn collect_markdown_files(entries: &Vec<TreeEntry>, files: &mut Vec<DocPath>) -> (directories:
    Vec<usize>)
    ensures
        path_views(final(files)@) == path_views(old(files)@) + collected(entries@),
        places(directories@) == subdirectories(entries@),
{
    let mut directories: Vec<usize> = Vec::new();
    let mut i: usize = 0;
    assert(entries@.subrange(0, 0) =~= Seq::<TreeEntry>::empty());
    assert(path_views(files@) =~= path_views(old(files)@) + Seq::<Seq<Seq<char>>>::empty());
    assert(places(directories@) =~= Seq::<int>::empty());
    while i < entries.len()
        invariant
            i <= entries@.len(),
            path_views(files@) == path_views(old(files)@) + collected(
                entries@.subrange(0, i as int),
            ),
            places(directories@) == subdirectories(entries@.subrange(0, i as int)),
        decreases entries@.len() - i,
    {
        let ghost known = entries@.subrange(0, i + 1);
        let ghost found = path_views(files@);
        let ghost below = places(directories@);
        assert(known.drop_last() =~= entries@.subrange(0, i as int));
        assert(known.last() == entries@[i as int]);
        let entry = &entries[i];
        match entry.kind {
            EntryKind::File => {
                if entry.path.is_markdown() {
                    files.push(entry.path.clone());
                    assert(path_views(files@) =~= found.push(entry.path@));
                    assert(path_views(files@) =~= path_views(old(files)@) + collected(known));
                }
            },
            EntryKind::Directory => {
                directories.push(i);
                assert(places(directories@) =~= below.push(i as int));
            },
            EntryKind::Other => {},
        }
        i = i + 1;
    }
    assert(entries@.subrange(0, entries@.len() as int) =~= entries@);
    directories
}

/// A source document as it was found: its path, and its text where it could
/// be read.
#[derive(Debug)]
pub struct SourceDocument {
    pub path: DocPath,
    pub text: Option<String>,
}

/// How the render of one document of a bulk render ended. `document` is the
/// place of the document among those given.
#[derive(Debug)]
pub struct BulkOutcome {
    pub document: usize,
    pub outcome: Result<RenderedDocument, RenderError>,
}

/// What a bulk render produced: the outcome for each document, in rising
/// order of the source paths, and the index page that lists the documents
/// that were rendered.
#[derive(Debug)]
pub struct BulkRender {
    pub outcomes: Vec<BulkOutcome>,
    pub index_html: String,
}

/// The paths of the documents.
pub open spec fn document_paths(documents: Seq<SourceDocument>) -> Seq<Seq<Seq<char>>> {
    Seq::new(documents.len(), |i: int| documents[i].path@)
}

/// The text of a document, where it could be read.
pub open spec fn text_view(document: SourceDocument) -> Option<Seq<char>> {
    match document.text {
        Some(text) => Some(text@),
        None => None,
    }
}

/// Why a bulk render failed as a whole.
#[derive(Debug, Clone, Copy, PartialEq, Eq, Structural)]
pub enum BulkRenderError {
    /// The content root could not be listed.
    ContentRootUnreadable,
}

/// Whether the render of a document succeeds: its text is there and its
/// path has an artifact.
pub open spec fn renders(document: SourceDocument, root: Seq<Seq<char>>) -> bool {
    document.text is Some && mapped_path(document.path@, root) is Some
}

/// The paths of those documents, among the ones at the places given by
/// `order`, whose render succeeds, in that order.
pub open spec fn listed(
    documents: Seq<SourceDocument>,
    root: Seq<Seq<char>>,
    order: Seq<int>,
) -> Seq<Seq<Seq<char>>>
    decreases order.len(),
{
    if order.len() == 0 {
        Seq::empty()
    } else if renders(documents[order.last()], root) {
        listed(documents, root, order.drop_last()).push(documents[order.last()].path@)
    } else {
        listed(documents, root, order.drop_last())
    }
}

/// What a bulk render of the documents gives: the outcome of each, in rising
/// order of the source paths, and the index of those that were rendered.
pub open spec fn is_bulk_render_of(
    bulk: BulkRender,
    documents: Seq<SourceDocument>,
    root: Seq<Seq<char>>,
) -> bool {
    &&& bulk.outcomes@.len() == documents.len()
    &&& forall|k: int|
        0 <= k < bulk.outcomes@.len() ==> {
            &&& (#[trigger] bulk.outcomes@[k]).document == sorted_order(
                document_paths(documents),
            )[k]
            &&& bulk.outcomes@[k].document < documents.len()
            &&& is_render_of(
                bulk.outcomes@[k].outcome,
                documents[bulk.outcomes@[k].document as int].path@,
                root,
                text_view(documents[bulk.outcomes@[k].document as int]),
            )
        }
    &&& bulk.index_html@ == index_page(
        listed(documents, root, sorted_order(document_paths(documents))),
        root,
    )
}

/// Renders every document of the content tree, in rising order of the
/// source paths, and builds the index of those that were rendered. `listing`
/// holds the documents found below the content root, or `None` where the
/// root could not be listed: only then does the bulk render fail. A document
/// that fails is left out of the index and changes nothing for the others.
pub fn render_all_markdown_files(
    content_root: &DocPath,
    listing: Option<&Vec<SourceDocument>>,
) -> (outcome: Result<BulkRender, BulkRenderError>)
    ensures
        match outcome {
            Ok(bulk) => listing is Some && is_bulk_render_of(
                bulk,
                listing->Some_0@,
                content_root@,
            ),
            Err(e) => listing is None && e == BulkRenderError::ContentRootUnreadable,
        },
{
    let documents = match listing {
        Some(documents) => documents,
        None => {
            return Err(BulkRenderError::ContentRootUnreadable);
        },
    };
    let mut paths: Vec<DocPath> = Vec::new();
    let mut i: usize = 0;
    while i < documents.len()
        invariant
            i <= documents@.len(),
            paths@.len() == i,
            forall|j: int| 0 <= j < i ==> (#[trigger] paths@[j])@ == documents@[j].path@,
        decreases documents@.len() - i,
    {
        paths.push(documents[i].path.clone());
        i = i + 1;
    }
    assert(path_views(paths@) =~= document_paths(documents@));
    let order = sort_order(&paths);
    let ghost sorted = sorted_order(document_paths(documents@));
    let mut outcomes: Vec<BulkOutcome> = Vec::new();
    let mut rendered: Vec<DocPath> = Vec::new();
    let mut k: usize = 0;
    assert(sorted.subrange(0, 0) =~= Seq::<int>::empty());
    assert(path_views(rendered@) =~= Seq::<Seq<Seq<char>>>::empty());
    while k < order.len()
        invariant
            k <= order@.len(),
            order@.len() == documents@.len(),
            sorted == places(order@),
            forall|j: int| 0 <= j < order@.len() ==> (#[trigger] order@[j]) < documents@.len(),
            outcomes@.len() == k,
            forall|j: int|
                0 <= j < k ==> {
                    &&& (#[trigger] outcomes@[j]).document == sorted[j]
                    &&& outcomes@[j].document < documents@.len()
                    &&& is_render_of(
                        outcomes@[j].outcome,
                        documents@[outcomes@[j].document as int].path@,
                        content_root@,
                        text_view(documents@[outcomes@[j].document as int]),
                    )
                },
            path_views(rendered@) == listed(
                documents@,
                content_root@,
                sorted.subrange(0, k as int),
            ),
        decreases order@.len() - k,
    {
        let ghost next = sorted.subrange(0, k + 1);
        assert(next.drop_last() =~= sorted.subrange(0, k as int));
        assert(next.last() == order@[k as int]);
        let place = order[k];
        let document = &documents[place];
        let outcome = match &document.text {
            Some(text) => render_markdown_file(&document.path, content_root, Some(text.as_str())),
            None => render_markdown_file(&document.path, content_root, None),
        };
        if outcome.is_ok() {
            let ghost before = path_views(rendered@);
            rendered.push(document.path.clone());
            assert(path_views(rendered@) =~= before.push(document.path@));
        }
        outcomes.push(BulkOutcome { document: place, outcome });
        k = k + 1;
    }
    assert(sorted.subrange(0, order@.len() as int) =~= sorted);
    let index_html = generate_index_html(content_root, &rendered);
    Ok(BulkRender { outcomes, index_html })
}

} // verus!
