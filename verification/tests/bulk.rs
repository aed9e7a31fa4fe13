use live_md::markdown::RenderError;
use live_md::paths::{path_before, sort_order, text_before, DocPath};
use live_md::text::{chars_of, replace_chars, spaced_chars, string_of};
use live_md::{
    collect_markdown_files, generate_index_html, index_entry_for, render_all_markdown_files,
    BulkRenderError, EntryKind, SourceDocument, TreeEntry,
};

fn doc(parts: &[&str]) -> DocPath {
    DocPath::new(parts.iter().map(|part| part.to_string()).collect())
}

fn source(parts: &[&str], text: &str) -> SourceDocument {
    SourceDocument { path: doc(parts), text: Some(text.to_string()) }
}

fn chars(text: &str) -> Vec<char> {
    text.chars().collect()
}

#[test]
fn test_generate_index_html() {
    let content_dir = doc(&["tmp"]);
    let files = vec![doc(&["tmp", "test1.md"]), doc(&["tmp", "test2.md"])];

    let index_content = generate_index_html(&content_dir, &files);

    assert!(index_content.contains("test1"));
    assert!(index_content.contains("test2"));
}

#[test]
fn index_lists_pages_with_links_and_directories() {
    let root = doc(&["content"]);
    let documents = vec![
        source(&["content", "page1.md"], "# Page 1"),
        source(&["content", "page2.md"], "# Page 2"),
        source(&["content", "docs", "page3.md"], "# Page 3"),
    ];
    let bulk = render_all_markdown_files(&root, Some(&documents)).unwrap();
    let index = bulk.index_html;
    assert!(index.contains("page1"));
    assert!(index.contains("page2"));
    assert!(index.contains("page3"));
    assert!(index.contains("in docs"));
    assert!(index.contains("href=\"page1.html\""));
    assert!(index.contains("href=\"docs/page3.html\""));
}

#[test]
fn bulk_render_of_two_documents() {
    let root = doc(&["content"]);
    let documents =
        vec![source(&["content", "docs", "b.md"], "# B"), source(&["content", "a.md"], "# A")];
    let bulk = render_all_markdown_files(&root, Some(&documents)).unwrap();

    assert_eq!(bulk.outcomes.len(), 2);
    assert_eq!(bulk.outcomes[0].document, 1);
    assert_eq!(bulk.outcomes[1].document, 0);
    let a = bulk.outcomes[0].outcome.as_ref().unwrap();
    let b = bulk.outcomes[1].outcome.as_ref().unwrap();
    assert_eq!(a.path.to_string(), "a.html");
    assert_eq!(b.path.to_string(), "docs/b.html");
    assert!(a.html.contains("<h1>A</h1>"));
    assert!(b.html.contains("<h1>B</h1>"));
    assert!(bulk.index_html.contains("<li><a href=\"a.html\">a</a></li>"));
    assert!(bulk
        .index_html
        .contains("<li><a href=\"docs/b.html\">b<span class=\"path\">in docs</span></a></li>"));
    let first = bulk.index_html.find("a.html").unwrap();
    let second = bulk.index_html.find("docs/b.html").unwrap();
    assert!(first < second);
}

#[test]
fn bulk_render_maps_the_index_document_to_the_root_index() {
    let root = doc(&["content"]);
    let documents = vec![source(&["content", "README.md"], "# Project")];
    let bulk = render_all_markdown_files(&root, Some(&documents)).unwrap();
    let rendered = bulk.outcomes[0].outcome.as_ref().unwrap();
    assert_eq!(rendered.path.to_string(), "index.html");
    assert_ne!(rendered.path.to_string(), "README.html");
    assert!(bulk.index_html.contains("href=\"index.html\""));
}

#[test]
fn bulk_render_leaves_failed_documents_out_of_the_index() {
    let root = doc(&["content"]);
    let documents = vec![
        SourceDocument { path: doc(&["content", "unreadable.md"]), text: None },
        source(&["content", "fine.md"], "# Fine"),
        source(&["elsewhere", "stray.md"], "# Stray"),
    ];
    let bulk = render_all_markdown_files(&root, Some(&documents)).unwrap();
    assert_eq!(bulk.outcomes.len(), 3);

    // In rising order of the paths: content/fine.md, content/unreadable.md, elsewhere/stray.md.
    assert_eq!(bulk.outcomes[0].document, 1);
    assert!(bulk.outcomes[0].outcome.as_ref().unwrap().html.contains("<h1>Fine</h1>"));
    assert_eq!(bulk.outcomes[1].document, 0);
    assert_eq!(*bulk.outcomes[1].outcome.as_ref().unwrap_err(), RenderError::ReadError);
    assert_eq!(bulk.outcomes[2].document, 2);
    assert_eq!(*bulk.outcomes[2].outcome.as_ref().unwrap_err(), RenderError::InvalidPath);

    assert!(bulk.index_html.contains("href=\"fine.html\""));
    assert!(!bulk.index_html.contains("unreadable"));
    assert!(!bulk.index_html.contains("stray"));
}

#[test]
fn bulk_render_of_nothing_is_an_empty_index() {
    let bulk = render_all_markdown_files(&doc(&["content"]), Some(&Vec::new())).unwrap();
    assert!(bulk.outcomes.is_empty());
    assert_eq!(bulk.index_html, generate_index_html(&doc(&["content"]), &Vec::new()));
    assert!(bulk.index_html.contains("<ul>\n    </ul>"));
    assert!(!bulk.index_html.contains("<li>"));
}

#[test]
fn index_entry_has_link_title_and_label() {
    let root = doc(&["content"]);
    assert_eq!(
        string_of(&index_entry_for(&doc(&["content", "getting_started.md"]), &root)),
        "        <li><a href=\"getting_started.html\">getting started</a></li>\n"
    );
    assert_eq!(
        string_of(&index_entry_for(&doc(&["content", "a", "b", "deep_page.md"]), &root)),
        "        <li><a href=\"a/b/deep_page.html\">deep page<span class=\"path\">in a/b</span></a></li>\n"
    );
    assert_eq!(string_of(&index_entry_for(&doc(&["other", "x.md"]), &root)), "");
}

#[test]
fn index_lists_documents_in_rising_order_of_their_paths() {
    let root = doc(&["c"]);
    let files = vec![
        doc(&["c", "zeta.md"]),
        doc(&["c", "a-b", "x.md"]),
        doc(&["c", "a", "y.md"]),
        doc(&["c", "alpha.md"]),
        doc(&["c", "a", "b", "w.md"]),
    ];
    assert_eq!(sort_order(&files), vec![4, 2, 1, 3, 0]);
    let index = generate_index_html(&root, &files);
    let places: Vec<usize> = ["a/b/w.html", "a/y.html", "a-b/x.html", "alpha.html", "zeta.html"]
        .iter()
        .map(|href| index.find(&format!("href=\"{}\"", href)).unwrap())
        .collect();
    let mut rising = places.clone();
    rising.sort();
    assert_eq!(places, rising);
}

#[test]
fn equal_paths_keep_the_order_in_which_they_came() {
    let files = vec![doc(&["b.md"]), doc(&["a.md"]), doc(&["b.md"]), doc(&["a.md"])];
    assert_eq!(sort_order(&files), vec![1, 3, 0, 2]);
    assert_eq!(sort_order(&Vec::new()), Vec::<usize>::new());
}

#[test]
fn paths_are_ordered_segment_by_segment() {
    assert!(path_before(&doc(&["a"]), &doc(&["a", "b"])));
    assert!(!path_before(&doc(&["a", "b"]), &doc(&["a"])));
    assert!(path_before(&doc(&["a", "z"]), &doc(&["a-b"])));
    assert!(path_before(&doc(&["a", "b"]), &doc(&["a", "c"])));
    assert!(!path_before(&doc(&["a", "b"]), &doc(&["a", "b"])));
    assert!(path_before(&doc(&[]), &doc(&["a"])));
    assert!(!path_before(&doc(&[]), &doc(&[])));
}

#[test]
fn texts_are_ordered_by_code_point() {
    assert!(text_before(&chars("abc"), &chars("abd")));
    assert!(text_before(&chars("ab"), &chars("abc")));
    assert!(text_before(&chars(""), &chars("a")));
    assert!(text_before(&chars("Z"), &chars("a")));
    assert!(!text_before(&chars("abc"), &chars("abc")));
    assert!(!text_before(&chars("b"), &chars("abc")));
    assert!(text_before(&chars("z"), &chars("\u{e9}")));
}

#[test]
fn replacing_goes_from_left_to_right_without_overlap() {
    let replaced = replace_chars(&chars("aaaa"), &chars("aa"), &chars("b"));
    assert_eq!(string_of(&replaced), "bb");
    let replaced = replace_chars(&chars("aaa"), &chars("aa"), &chars("b"));
    assert_eq!(string_of(&replaced), "ba");
    let replaced = replace_chars(&chars("x{{t}}y{{t}}"), &chars("{{t}}"), &chars(""));
    assert_eq!(string_of(&replaced), "xy");
    let replaced = replace_chars(&chars("abc"), &chars("abcd"), &chars("z"));
    assert_eq!(string_of(&replaced), "abc");
    let replaced = replace_chars(&chars(""), &chars("a"), &chars("z"));
    assert_eq!(string_of(&replaced), "");
    let replaced = replace_chars(&chars("abc"), &chars(""), &chars("z"));
    assert_eq!(string_of(&replaced), "abc");
}

#[test]
fn text_helpers_keep_every_character() {
    assert_eq!(chars_of("h\u{e9}llo"), vec!['h', '\u{e9}', 'l', 'l', 'o']);
    assert_eq!(string_of(&vec!['a', '\u{1f600}', 'b']), "a\u{1f600}b");
    assert_eq!(string_of(&spaced_chars(&chars("a_b__c d"))), "a b  c d");
}

#[test]
fn test_collect_markdown_files() {
    let entries = vec![
        TreeEntry { path: doc(&["base", "test1.md"]), kind: EntryKind::File },
        TreeEntry { path: doc(&["base", "test2.md"]), kind: EntryKind::File },
        TreeEntry { path: doc(&["base", "subdir"]), kind: EntryKind::Directory },
    ];
    let mut files = Vec::new();
    let directories = collect_markdown_files(&entries, &mut files);
    assert_eq!(directories, vec![2]);
    let below = vec![TreeEntry { path: doc(&["base", "subdir", "test3.md"]), kind: EntryKind::File }];
    assert_eq!(collect_markdown_files(&below, &mut files), Vec::<usize>::new());

    assert_eq!(files.len(), 3);
    assert!(files.iter().all(|p| p.segments.last().unwrap().ends_with(".md")));
}

#[test]
fn only_files_with_the_document_extension_are_collected() {
    let entries = vec![
        TreeEntry { path: doc(&["c", "notes.txt"]), kind: EntryKind::File },
        TreeEntry { path: doc(&["c", "dir.md"]), kind: EntryKind::Directory },
        TreeEntry { path: doc(&["c", "a.md"]), kind: EntryKind::File },
        TreeEntry { path: doc(&["c", "socket.md"]), kind: EntryKind::Other },
        TreeEntry { path: doc(&["c", "sub"]), kind: EntryKind::Directory },
    ];
    let mut files = vec![doc(&["c", "earlier.md"])];
    let directories = collect_markdown_files(&entries, &mut files);
    assert_eq!(directories, vec![1, 4]);
    let names: Vec<String> = files.iter().map(|file| file.to_string()).collect();
    assert_eq!(names, vec!["c/earlier.md".to_string(), "c/a.md".to_string()]);
}

#[test]
fn integration_test_nested_directory_structure() {
    let root = doc(&["tmp", "content"]);
    let documents = vec![
        source(&["tmp", "content", "root.md"], "# Root Document"),
        source(&["tmp", "content", "docs", "section", "nested.md"], "# Nested Document"),
        source(&["tmp", "content", "README.md"], "# Project Index"),
    ];
    let bulk = render_all_markdown_files(&root, Some(&documents)).unwrap();
    let artifact = |href: &str| {
        bulk.outcomes
            .iter()
            .filter_map(|item| item.outcome.as_ref().ok())
            .find(|rendered| rendered.path.to_string() == href)
            .map(|rendered| rendered.html.clone())
    };

    // Test root document
    let response = artifact("root.html");
    assert!(response.is_some());
    assert!(response.unwrap().contains("Root Document"));

    // Test nested document
    let response = artifact("docs/section/nested.html");
    assert!(response.is_some());
    assert!(response.unwrap().contains("Nested Document"));

    // The index document goes to the root index.
    let response = artifact("index.html");
    assert!(response.is_some());
    assert!(response.unwrap().contains("Project Index"));
}

#[test]
fn bulk_render_fails_only_where_the_root_cannot_be_listed() {
    let outcome = render_all_markdown_files(&doc(&["content"]), None);
    assert_eq!(outcome.unwrap_err(), BulkRenderError::ContentRootUnreadable);

    let unreadable = vec![SourceDocument { path: doc(&["content", "a.md"]), text: None }];
    let outcome = render_all_markdown_files(&doc(&["content"]), Some(&unreadable));
    assert!(outcome.is_ok());
}
