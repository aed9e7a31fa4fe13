//! Rendering one document: the parser extensions in force, the conversion of
//! Markdown to markup, the artifact a source path maps to, and the page that
//! is written there.

use crate::paths::{
    file_stem, is_descendant, is_document, is_file_name, name_is_stem_dot_extension, names_file,
    stem_of, DocPath,
};
use crate::text::{append_chars, chars_of, same_chars, spaced, spaced_chars, string_of};
use crate::{page, wrap_html_template};
use pulldown_cmark::{html, Options, Parser};
use vstd::prelude::*;

verus! {

/// Why a document could not be rendered.
#[derive(Debug, Clone, Copy, PartialEq, Eq, Structural)]
pub enum RenderError {
    /// The source path is not below the content root, or names no file.
    InvalidPath,
    /// The source document could not be read.
    ReadError,
    /// The artifact, or a directory above it, could not be written.
    WriteError,
}

/// Which parser extensions to switch off. By default none is.
#[derive(Debug, Clone, Copy)]
pub struct MarkdownOptions {
    pub disable_tables: bool,
    pub disable_footnotes: bool,
    pub disable_strikethrough: bool,
    pub disable_tasklists: bool,
    pub disable_smart_punctuation: bool,
}

/// The optional parser extensions, each on or off. Every other extension
/// of the parser is always on.
#[derive(Debug, Clone, Copy, PartialEq, Eq, Structural)]
pub struct ParserFlags {
    pub tables: bool,
    pub footnotes: bool,
    pub strikethrough: bool,
    pub tasklists: bool,
    pub smart_punctuation: bool,
}

impl Default for MarkdownOptions {
    fn default() -> (options: MarkdownOptions)
        ensures
            !options.disable_tables,
            !options.disable_footnotes,
            !options.disable_strikethrough,
            !options.disable_tasklists,
            !options.disable_smart_punctuation,
    {
        MarkdownOptions {
            disable_tables: false,
            disable_footnotes: false,
            disable_strikethrough: false,
            disable_tasklists: false,
            disable_smart_punctuation: false,
        }
    }
}

impl MarkdownOptions {
    /// The extensions left on by these options.
    pub open spec fn parser_flags(&self) -> ParserFlags {
        ParserFlags {
            tables: !self.disable_tables,
            footnotes: !self.disable_footnotes,
            strikethrough: !self.disable_strikethrough,
            tasklists: !self.disable_tasklists,
            smart_punctuation: !self.disable_smart_punctuation,
        }
    }

    /// Starts from every extension switched on and switches off each one
    /// that the options disable.
    pub fn to_parser_options(&self) -> (flags: ParserFlags)
        ensures
            flags == self.parser_flags(),
    {
        let mut flags = ParserFlags {
            tables: true,
            footnotes: true,
            strikethrough: true,
            tasklists: true,
            smart_punctuation: true,
        };
        if self.disable_tables {
            flags.tables = false;
        }
        if self.disable_footnotes {
            flags.footnotes = false;
        }
        if self.disable_strikethrough {
            flags.strikethrough = false;
        }
        if self.disable_tasklists {
            flags.tasklists = false;
        }
        if self.disable_smart_punctuation {
            flags.smart_punctuation = false;
        }
        flags
    }
}

/// The markup that the Markdown parser and its HTML writer produce for a
/// text, with all extensions on but those of the five that are switched off.
pub uninterp spec fn markdown_html(
    markdown: Seq<char>,
    tables: bool,
    footnotes: bool,
    strikethrough: bool,
    tasklists: bool,
    smart_punctuation: bool,
) -> Seq<char>;

/// Runs `pulldown_cmark::Parser::new_ext` over the text and writes its events
/// with `pulldown_cmark::html::push_html`. The options handed to the parser
/// are `Options::all()` with each of the five flags set as the arguments
/// say. The result is a function of the text and the flags alone; nothing
/// more is claimed of it.
#[verifier::external_body]
fn convert(
    markdown: &str,
    tables: bool,
    footnotes: bool,
    strikethrough: bool,
    tasklists: bool,
    smart_punctuation: bool,
) -> (html: String)
    ensures
        html@ == markdown_html(
            markdown@,
            tables,
            footnotes,
            strikethrough,
            tasklists,
            smart_punctuation,
        ),
{
    let mut options = Options::all();
    options.set(Options::ENABLE_TABLES, tables);
    options.set(Options::ENABLE_FOOTNOTES, footnotes);
    options.set(Options::ENABLE_STRIKETHROUGH, strikethrough);
    options.set(Options::ENABLE_TASKLISTS, tasklists);
    options.set(Options::ENABLE_SMART_PUNCTUATION, smart_punctuation);
    let mut out = String::new();
    html::push_html(&mut out, Parser::new_ext(markdown, options));
    out
}

/// The markup for a text under the given options.
pub open spec fn html_of(markdown: Seq<char>, options: MarkdownOptions) -> Seq<char> {
    markdown_html(
        markdown,
        !options.disable_tables,
        !options.disable_footnotes,
        !options.disable_strikethrough,
        !options.disable_tasklists,
        !options.disable_smart_punctuation,
    )
}

/// Converts Markdown text to a markup fragment.
pub fn markdown_to_html(markdown: &str, options: &MarkdownOptions) -> (html: String)
    ensures
        html@ == html_of(markdown@, *options),
{
    let flags = options.to_parser_options();
    convert(
        markdown,
        flags.tables,
        flags.footnotes,
        flags.strikethrough,
        flags.tasklists,
        flags.smart_punctuation,
    )
}

/// Name of the document that stands for the index of the whole tree.
pub const INDEX_SOURCE: &'static str = "README.md";

/// Name of the index artifact, at the top of the output tree.
pub const INDEX_ARTIFACT: &'static str = "index.html";

/// What an artifact's name ends in.
pub const ARTIFACT_SUFFIX: &'static str = ".html";

/// The title of a page whose source has no file name.
pub const DEFAULT_TITLE: &'static str = "Markdown Preview";

/// Name of the document that stands for the index of the whole tree.
pub open spec fn index_source_name() -> Seq<char> {
    INDEX_SOURCE@
}

/// Name of the index artifact, at the top of the output tree.
pub open spec fn index_artifact_name() -> Seq<char> {
    INDEX_ARTIFACT@
}

/// What an artifact's name ends in.
pub open spec fn artifact_suffix() -> Seq<char> {
    ARTIFACT_SUFFIX@
}

/// The artifact of a source document, relative to the output root: the root
/// index for a document with the index name, at any depth; else the
/// document's place below the content root, with the artifact suffix in
/// place of the extension. `None` where the path is not below the content
/// root or names no file.
pub open spec fn mapped_path(source: Seq<Seq<char>>, root: Seq<Seq<char>>) -> Option<
    Seq<Seq<char>>,
> {
    if !is_descendant(source, root) || !names_file(source.last()) {
        None
    } else if source.last() == index_source_name() {
        Some(seq![index_artifact_name()])
    } else {
        Some(
            source.subrange(root.len() as int, source.len() - 1).push(
                file_stem(source.last()) + artifact_suffix(),
            ),
        )
    }
}

/// The title of a document's page: the stem of its file name with spaces
/// for underscores.
pub open spec fn page_title(source: Seq<Seq<char>>) -> Seq<char> {
    if source.len() > 0 && names_file(source.last()) {
        spaced(file_stem(source.last()))
    } else {
        DEFAULT_TITLE@
    }
}

/// A document below the content root that does not bear the index name keeps
/// every directory between the root and itself, and its name changes in the
/// extension alone.
pub proof fn mapping_keeps_directories(source: Seq<Seq<char>>, root: Seq<Seq<char>>)
    requires
        is_descendant(source, root),
        is_document(source),
        source.last() != index_source_name(),
    ensures
        mapped_path(source, root) is Some,
        mapped_path(source, root).unwrap().len() == source.len() - root.len(),
        forall|i: int|
            0 <= i < source.len() - root.len() - 1 ==> mapped_path(source, root).unwrap()[i]
                == source[root.len() + i],
        source.last() == file_stem(source.last()) + ".md"@,
        mapped_path(source, root).unwrap().last() == file_stem(source.last()) + ".html"@,
{
    reveal_strlit("md");
    reveal_strlit(".md");
    name_is_stem_dot_extension(source.last());
    assert(seq!['.'] + "md"@ =~= ".md"@);
    assert(file_stem(source.last()) + seq!['.'] + "md"@ =~= file_stem(source.last()) + ".md"@);
}

/// A document below the content root that bears the index name maps to the
/// root index, however deep it lies.
pub proof fn index_document_maps_to_root_index(source: Seq<Seq<char>>, root: Seq<Seq<char>>)
    requires
        is_descendant(source, root),
        source.last() == index_source_name(),
    ensures
        mapped_path(source, root) == Some(seq![index_artifact_name()]),
{
    reveal_strlit("README.md");
    reveal_strlit(".");
    reveal_strlit("..");
    assert(source.last().len() == 9);
}

/// Two different documents below the content root, neither of which bears
/// the index name, have different artifacts. (A document with the index name
/// shares the root index with every other such document: of those, the one
/// rendered last is the one that stays.)
pub proof fn documents_share_no_artifact(
    first: Seq<Seq<char>>,
    second: Seq<Seq<char>>,
    root: Seq<Seq<char>>,
)
    requires
        is_descendant(first, root),
        is_descendant(second, root),
        is_document(first),
        is_document(second),
        first.last() != index_source_name(),
        second.last() != index_source_name(),
        first != second,
    ensures
        mapped_path(first, root) != mapped_path(second, root),
{
    let a = mapped_path(first, root).unwrap();
    let b = mapped_path(second, root).unwrap();
    if a == b {
        let stem_a = file_stem(first.last());
        let stem_b = file_stem(second.last());
        let suffix = artifact_suffix();
        assert(a.len() == first.len() - root.len());
        assert(b.len() == second.len() - root.len());
        assert(a.last() == stem_a + suffix);
        assert(b.last() == stem_b + suffix);
        assert(stem_a =~= (stem_a + suffix).subrange(0, stem_a.len() as int));
        assert(stem_b =~= (stem_b + suffix).subrange(0, stem_b.len() as int));
        name_is_stem_dot_extension(first.last());
        name_is_stem_dot_extension(second.last());
        assert forall|i: int| 0 <= i < first.len() implies first[i] == second[i] by {
            if i < root.len() {
                assert(first.subrange(0, root.len() as int)[i] == root[i]);
                assert(second.subrange(0, root.len() as int)[i] == root[i]);
            } else if i < first.len() - 1 {
                assert(a[i - root.len()] == first[i]);
                assert(b[i - root.len()] == second[i]);
            }
        }
        assert(first =~= second);
    }
}

/// A path has an artifact exactly when it lies below the content root and
/// ends in a file name.
pub proof fn mapping_fails_exactly_on_invalid_paths(source: Seq<Seq<char>>, root: Seq<Seq<char>>)
    ensures
        mapped_path(source, root) is Some <==> is_descendant(source, root) && names_file(
            source.last(),
        ),
{
}

/// Rendering is repeatable: two renders of one document from the same text
/// end alike, with the same artifact path and the same page, or with the
/// same error.
pub proof fn rendering_is_repeatable(
    first: Result<RenderedDocument, RenderError>,
    second: Result<RenderedDocument, RenderError>,
    source: Seq<Seq<char>>,
    root: Seq<Seq<char>>,
    text: Option<Seq<char>>,
)
    requires
        is_render_of(first, source, root, text),
        is_render_of(second, source, root, text),
    ensures
        first is Ok <==> second is Ok,
        first is Ok ==> first->Ok_0.path@ == second->Ok_0.path@ && first->Ok_0.html@
            == second->Ok_0.html@,
        first is Err ==> first->Err_0 == second->Err_0,
{
}

/// Maps a source document to its artifact, relative to the output root.
pub fn get_output_path(source: &DocPath, content_root: &DocPath) -> (mapped: Result<
    DocPath,
    RenderError,
>)
    ensures
        match mapped {
            Ok(path) => mapped_path(source@, content_root@) == Some(path@),
            Err(e) => e == RenderError::InvalidPath && mapped_path(source@, content_root@) is None,
        },
{
    if !source.is_below(content_root) {
        return Err(RenderError::InvalidPath);
    }
    let n = source.len();
    let name = source.segment_chars(n - 1);
    if !is_file_name(&name) {
        return Err(RenderError::InvalidPath);
    }
    let index_name = chars_of(INDEX_SOURCE);
    let mut segments: Vec<String> = Vec::new();
    if same_chars(&name, &index_name) {
        segments.push(INDEX_ARTIFACT.to_owned());
        let path = DocPath::new(segments);
        assert(path@ =~= seq![index_artifact_name()]);
        return Ok(path);
    }
    let start = content_root.len();
    let mut i: usize = start;
    while i < n - 1
        invariant
            start <= i <= n - 1,
            n == source@.len(),
            segments@.len() == i - start,
            forall|j: int| 0 <= j < i - start ==> segments@[j]@ == source@[start + j],
        decreases n - 1 - i,
    {
        segments.push(source.segments[i].clone());
        i = i + 1;
    }
    let mut artifact = stem_of(&name);
    let suffix = chars_of(ARTIFACT_SUFFIX);
    append_chars(&mut artifact, &suffix);
    segments.push(string_of(&artifact));
    let path = DocPath::new(segments);
    assert(path@ =~= source@.subrange(start as int, n - 1).push(
        file_stem(source@.last()) + artifact_suffix(),
    ));
    Ok(path)
}

/// The title for the page of a source document.
pub fn title_of(source: &DocPath) -> (title: String)
    ensures
        title@ == page_title(source@),
{
    let n = source.len();
    if n == 0 {
        return DEFAULT_TITLE.to_owned();
    }
    let name = source.segment_chars(n - 1);
    if !is_file_name(&name) {
        return DEFAULT_TITLE.to_owned();
    }
    let stem = stem_of(&name);
    let title = spaced_chars(&stem);
    string_of(&title)
}

/// A rendered document: where its artifact goes, relative to the output
/// root, and the page to write there.
#[derive(Debug)]
pub struct RenderedDocument {
    pub path: DocPath,
    pub html: String,
}

/// The outcome of rendering a document from the markup of its text.
pub open spec fn is_assembled(
    outcome: Result<RenderedDocument, RenderError>,
    source: Seq<Seq<char>>,
    root: Seq<Seq<char>>,
    fragment: Seq<char>,
) -> bool {
    match outcome {
        Ok(document) => mapped_path(source, root) == Some(document.path@) && document.html@
            == page(fragment, page_title(source)),
        Err(e) => e == RenderError::InvalidPath && mapped_path(source, root) is None,
    }
}

/// Wraps the markup of a document in its page and says where the page
/// goes. Fails, with `InvalidPath`, exactly where the source has no artifact.
pub fn assemble_document(source: &DocPath, content_root: &DocPath, fragment: &str) -> (outcome:
    Result<RenderedDocument, RenderError>)
    ensures
        is_assembled(outcome, source@, content_root@, fragment@),
{
    match get_output_path(source, content_root) {
        Ok(path) => {
            let title = title_of(source);
            let html = wrap_html_template(fragment, title.as_str());
            Ok(RenderedDocument { path, html })
        },
        Err(e) => Err(e),
    }
}

/// What rendering a document gives, with the default options: `ReadError`
/// where its text could not be read; else `InvalidPath` where its path has no
/// artifact; else the artifact path and the page around the markup of the
/// text.
pub open spec fn is_render_of(
    outcome: Result<RenderedDocument, RenderError>,
    source: Seq<Seq<char>>,
    root: Seq<Seq<char>>,
    text: Option<Seq<char>>,
) -> bool {
    match text {
        Some(markdown) => is_assembled(
            outcome,
            source,
            root,
            markdown_html(markdown, true, true, true, true, true),
        ),
        None => outcome is Err && outcome->Err_0 == RenderError::ReadError,
    }
}

/// Renders a source document from its text, where it could be read (`None`
/// where it could not), with the default options: converts the text to
/// markup, wraps the markup in the page with the document's title, and maps
/// the source to its artifact.
pub fn render_markdown_file(source: &DocPath, content_root: &DocPath, markdown: Option<&str>) -> (outcome:
    Result<RenderedDocument, RenderError>)
    ensures
        is_render_of(
            outcome,
            source@,
            content_root@,
            match markdown {
                Some(text) => Some(text@),
                None => None,
            },
        ),
{
    match markdown {
        Some(text) => {
            let options = MarkdownOptions::default();
            let fragment = markdown_to_html(text, &options);
            assemble_document(source, content_root, fragment.as_str())
        },
        None => Err(RenderError::ReadError),
    }
}

} // verus!
