//! One run: what is planned for each namespace, what the run knows, and
//! what it reports at its end.

use vstd::prelude::*;
use crate::config::{CheckedGeneratorConfig, Namespace};
use crate::error::{Error, ErrorView};
use crate::formatter::{
    error_views, failures, rewritten, AstNode, FormatFunction, FormatFunctionWithArgs, Formatter,
    Pass,
};
use crate::passes::image::ImageTable;
use crate::navbar::{build_navbar, navbar_of, navbar_views, place_views, NavbarEntry};
use crate::passes::link::ArticlePathIndex;
use crate::schema::{aggregate_schemas, SchemaReport, SchemaTable};
use crate::table::{inserted, lemma_position_of, lemma_same_positions, lookup, position_of, StrMap};
use crate::text::{chars_of, concat, opt_view, slice_of, string_of, string_views, unicode_lowercase};
use crate::toc::parse::{
    entry_views, name_at, path_views, resolve_paths, resolve_with, slug, slugs,
    to_pinyin_or_lowercase, ResolvedPath, ResolvedPathView, TocEntry, TocEntryView,
};
use crate::toc::{Frontmatter, FrontmatterView, NavbarItem};

verus! {

broadcast use vstd::string::group_string_axioms;

// ---------------------------------------------------------------------------
// One document

/// The header of a written document: the sidebar shows its title at its
/// place in the outline, and the page shows the title alone.
pub open spec fn document_header(title: Seq<char>, order: u32) -> FrontmatterView {
    FrontmatterView {
        title: None,
        title_template: Some(title),
        sidebar: title,
        order,
        description: None,
        have_content: true,
    }
}

/// The header of the landing page that stands for a heading of the outline:
/// like a document's, but marked as having no content.
pub open spec fn heading_header(title: Seq<char>, order: u32) -> FrontmatterView {
    FrontmatterView {
        title: None,
        title_template: Some(title),
        sidebar: title,
        order,
        description: None,
        have_content: false,
    }
}

/// The header of a written document.
pub fn document_frontmatter(title: &str, order: u32) -> (r: Frontmatter)
    ensures
        r@ == document_header(title@, order),
{
    Frontmatter {
        title: None,
        title_template: Some(title.to_owned()),
        sidebar: title.to_owned(),
        order,
        description: None,
        have_content: true,
    }
}

/// The header of the landing page that stands for a heading of the outline.
pub fn heading_frontmatter(title: &str, order: u32) -> (r: Frontmatter)
    ensures
        r@ == heading_header(title@, order),
{
    Frontmatter {
        title: None,
        title_template: Some(title.to_owned()),
        sidebar: title.to_owned(),
        order,
        description: None,
        have_content: false,
    }
}

/// The line that shows the title at the top of a page.
pub fn heading_line(title: &str) -> (r: String)
    ensures
        r@ == "# "@ + title@ + "\n"@,
{
    let mut r = concat("# ", title);
    r.append("\n");
    r
}

/// What the passes make of a document, and what they report.
///
/// Embeds come first, then images, then links, each pass over the whole
/// tree that the pass before it left. An image that cannot be inlined makes
/// the document fail with the first such error; what the link pass could
/// not resolve is handed out beside the tree and fails nothing.
pub fn rewrite_document(document: AstNode, images: &ImageTable, articles: &ArticlePathIndex) -> (r:
    Result<(AstNode, Vec<Error>), Error>)
    ensures
        match r {
            Ok((tree, unresolved)) => {
                &&& failures(Pass::Images(images@), rewritten(Pass::Embed, document@)).len() == 0
                &&& tree@ == rewritten(
                    Pass::Links(articles@),
                    rewritten(Pass::Images(images@), rewritten(Pass::Embed, document@)),
                )
                &&& error_views(unresolved@) == failures(
                    Pass::Links(articles@),
                    rewritten(Pass::Images(images@), rewritten(Pass::Embed, document@)),
                )
            },
            Err(e) => {
                &&& failures(Pass::Images(images@), rewritten(Pass::Embed, document@)).len() > 0
                &&& e@ == failures(Pass::Images(images@), rewritten(Pass::Embed, document@))[0]
            },
        },
{
    let mut formatter = Formatter::new();
    formatter.parse(document);
    let _ = formatter.format(FormatFunction::ConvertCodepenLinkToIframe);
    let mut failed = formatter.format_with_args(&FormatFunctionWithArgs::ConvertImageToBase64(images));
    if failed.len() > 0 {
        let first = failed.swap_remove(0);
        return Err(first);
    }
    let unresolved = formatter.format_with_args(&FormatFunctionWithArgs::ConvertLink(articles));
    Ok((formatter.root.unwrap(), unresolved))
}

// ---------------------------------------------------------------------------
// One namespace

/// What the service tells of a knowledge base.
#[derive(Debug, PartialEq, Eq)]
pub struct Repository {
    pub id: i32,
    pub name: String,
    pub namespace: String,
    pub description: Option<String>,
    pub toc: Option<Vec<TocEntry>>,
}

/// What the service lists of a document.
#[derive(Debug, PartialEq, Eq)]
pub struct DocSummary {
    pub id: u32,
    pub slug: String,
    pub title: String,
}

/// One thing to write for a namespace.
#[derive(Debug, PartialEq, Eq)]
pub enum Job {
    /// Fetch the document `id` and write it to `path`, at place `order` of
    /// the sidebar.
    Document { path: String, id: u32, order: u32 },
    /// Make the directory and write a landing page with the header into it.
    Heading { directory: String, header: Frontmatter },
}

/// A job with its texts as sequences.
pub enum JobView {
    Document { path: Seq<char>, id: u32, order: u32 },
    Heading { directory: Seq<char>, header: FrontmatterView },
}

impl View for Job {
    type V = JobView;

    open spec fn view(&self) -> JobView {
        match *self {
            Job::Document { path, id, order } => JobView::Document { path: path@, id, order },
            Job::Heading { directory, header } => JobView::Heading {
                directory: directory@,
                header: header@,
            },
        }
    }
}

/// The views of a list of jobs.
pub open spec fn job_views(jobs: Seq<Job>) -> Seq<JobView> {
    Seq::new(jobs.len(), |i: int| jobs[i]@)
}

/// Everything that is to be done for one namespace.
#[derive(Debug, PartialEq, Eq)]
pub struct NamespacePlan {
    /// What to write, in the order of the outline.
    pub jobs: Vec<Job>,
    /// The entry of the namespace in the navigation bar.
    pub navbar_item: NavbarItem,
    /// The landing page of the namespace.
    pub index_path: String,
    /// What the landing page holds.
    pub index_content: String,
    /// The number of the knowledge base and the directory that holds it.
    pub book: (i32, String),
}

/// The directory name of a namespace: its name in lower case.
pub open spec fn namespace_slug(name: Seq<char>) -> Seq<char> {
    unicode_lowercase(name)
}

/// The outline that is resolved: what the service gave without its first
/// entry, which stands for the namespace itself.
pub open spec fn outline_of(toc: Option<Vec<TocEntry>>) -> Seq<TocEntryView> {
    match toc {
        Some(entries) => if entries@.len() > 0 {
            entry_views(entries@).skip(1)
        } else {
            Seq::empty()
        },
        None => Seq::empty(),
    }
}

/// The job for an outline entry at place `i`.
pub open spec fn job_of(p: ResolvedPathView, i: int) -> JobView {
    match p.entry {
        TocEntryView::Doc { id, .. } => JobView::Document { path: p.path(), id, order: i as u32 },
        TocEntryView::Title { title, .. } => JobView::Heading {
            directory: p.path(),
            header: heading_header(title, i as u32),
        },
    }
}

/// The jobs of an outline: one for each entry, in order.
pub open spec fn outline_jobs(paths: Seq<ResolvedPathView>) -> Seq<JobView> {
    Seq::new(paths.len(), |i: int| job_of(paths[i], i))
}

/// The index of the first `n` entries of an outline: each document's path
/// under the name by which it is linked.
pub open spec fn outline_index(paths: Seq<ResolvedPathView>, n: int) -> Seq<
    (Seq<char>, Seq<char>),
>
    decreases n,
{
    if n <= 0 || n > paths.len() {
        Seq::empty()
    } else {
        match paths[n - 1].entry {
            TocEntryView::Doc { url, .. } => inserted(
                outline_index(paths, n - 1),
                url,
                paths[n - 1].path(),
            ),
            TocEntryView::Title { .. } => outline_index(paths, n - 1),
        }
    }
}

/// The path of a document of a namespace without outline: the file of the
/// document's name in the namespace's directory.
pub open spec fn listed_path(directory: Seq<char>, name: Seq<char>) -> Seq<char> {
    "docs/"@ + directory + seq!['/'] + name + ".md"@
}

/// The jobs of a list of documents with the given names on disk: one for
/// each document, in order.
pub open spec fn listed_jobs(
    directory: Seq<char>,
    docs: Seq<DocSummary>,
    names: Seq<Seq<char>>,
) -> Seq<JobView> {
    Seq::new(
        docs.len(),
        |i: int|
            JobView::Document {
                path: listed_path(directory, name_at(names, i)),
                id: docs[i].id,
                order: i as u32,
            },
    )
}

/// The index of the first `n` documents of a list.
pub open spec fn listed_index(
    directory: Seq<char>,
    docs: Seq<DocSummary>,
    names: Seq<Seq<char>>,
    n: int,
) -> Seq<(Seq<char>, Seq<char>)>
    decreases n,
{
    if n <= 0 || n > docs.len() {
        Seq::empty()
    } else {
        inserted(
            listed_index(directory, docs, names, n - 1),
            docs[n - 1].slug@,
            listed_path(directory, name_at(names, n - 1)),
        )
    }
}

/// The jobs of a namespace whose directory and whose entries' names on disk
/// are given.
pub open spec fn planned_jobs(
    ns: Namespace,
    repo: Repository,
    docs: Seq<DocSummary>,
    directory: Seq<char>,
    names: Seq<Seq<char>>,
) -> Seq<JobView> {
    if ns.toc {
        outline_jobs(resolve_with(directory, outline_of(repo.toc), names))
    } else {
        listed_jobs(directory, docs, names)
    }
}

/// The index of a namespace whose directory and whose entries' names on
/// disk are given.
pub open spec fn planned_index(
    ns: Namespace,
    repo: Repository,
    docs: Seq<DocSummary>,
    directory: Seq<char>,
    names: Seq<Seq<char>>,
) -> Seq<(Seq<char>, Seq<char>)> {
    if ns.toc {
        let paths = resolve_with(directory, outline_of(repo.toc), names);
        outline_index(paths, paths.len() as int)
    } else {
        listed_index(directory, docs, names, docs.len() as int)
    }
}

/// How many entries a namespace has to write.
pub open spec fn planned_len(ns: Namespace, repo: Repository, docs: Seq<DocSummary>) -> int {
    if ns.toc {
        outline_of(repo.toc).len() as int
    } else {
        docs.len() as int
    }
}

/// The names on disk of the entries of a namespace: those of the titles of
/// its outline, or of its listed documents.
pub open spec fn planned_names(ns: Namespace, repo: Repository, docs: Seq<DocSummary>) -> Seq<
    Seq<char>,
> {
    if ns.toc {
        slugs(outline_of(repo.toc))
    } else {
        Seq::new(docs.len(), |i: int| slug(docs[i].title@))
    }
}

/// The jobs of a resolved outline.
fn jobs_of_outline(paths: &Vec<ResolvedPath>) -> (r: Vec<Job>)
    requires
        paths@.len() <= u32::MAX,
    ensures
        job_views(r@) == outline_jobs(path_views(paths@)),
{
    let mut jobs: Vec<Job> = Vec::new();
    let mut i: usize = 0;
    while i < paths.len()
        invariant
            i <= paths@.len(),
            paths@.len() <= u32::MAX,
            jobs@.len() == i,
            forall|k: int| 0 <= k < i ==> (#[trigger] jobs@[k])@ == job_of(paths@[k]@, k),
        decreases paths@.len() - i,
    {
        let p = &paths[i];
        let job = match &p.entry {
            TocEntry::Doc { id, .. } => Job::Document { path: p.path(), id: *id, order: i as u32 },
            TocEntry::Title { title, .. } => Job::Heading {
                directory: p.path(),
                header: heading_frontmatter(title.as_str(), i as u32),
            },
        };
        jobs.push(job);
        i = i + 1;
    }
    assert(job_views(jobs@) =~= outline_jobs(path_views(paths@)));
    jobs
}

/// The index of a resolved outline.
fn index_of_outline(paths: &Vec<ResolvedPath>) -> (r: ArticlePathIndex)
    ensures
        r@ == outline_index(path_views(paths@), paths@.len() as int),
{
    let mut index = ArticlePathIndex::new();
    let mut i: usize = 0;
    while i < paths.len()
        invariant
            i <= paths@.len(),
            index@ == outline_index(path_views(paths@), i as int),
        decreases paths@.len() - i,
    {
        let p = &paths[i];
        assert(path_views(paths@)[i as int] == p@);
        match &p.entry {
            TocEntry::Doc { url, .. } => {
                index.insert(url.clone(), p.path());
            },
            TocEntry::Title { .. } => {},
        }
        i = i + 1;
    }
    index
}

/// The path of a listed document of the given name on disk.
fn path_of_listed(directory: &str, name: &str) -> (r: String)
    ensures
        r@ == listed_path(directory@, name@),
{
    let mut path = concat("docs/", directory);
    path.append("/");
    path.append(name);
    path.append(".md");
    proof {
        reveal_strlit("/");
        assert("/"@ =~= seq!['/']);
    }
    path
}

/// The name that is given for the entry at a place.
fn name_of(names: &Vec<String>, i: usize) -> (r: &str)
    ensures
        r@ == name_at(string_views(names@), i as int),
{
    if i < names.len() {
        names[i].as_str()
    } else {
        proof {
            reveal_strlit("");
            assert(""@ =~= Seq::<char>::empty());
        }
        ""
    }
}

/// The jobs of a list of documents.
fn jobs_of_list(directory: &str, docs: &Vec<DocSummary>, names: &Vec<String>) -> (r: Vec<Job>)
    requires
        docs@.len() <= u32::MAX,
    ensures
        job_views(r@) == listed_jobs(directory@, docs@, string_views(names@)),
{
    let mut jobs: Vec<Job> = Vec::new();
    let mut i: usize = 0;
    while i < docs.len()
        invariant
            i <= docs@.len(),
            docs@.len() <= u32::MAX,
            jobs@.len() == i,
            forall|k: int|
                0 <= k < i ==> (#[trigger] jobs@[k])@ == listed_jobs(
                    directory@,
                    docs@,
                    string_views(names@),
                )[k],
        decreases docs@.len() - i,
    {
        let doc = &docs[i];
        jobs.push(
            Job::Document {
                path: path_of_listed(directory, name_of(names, i)),
                id: doc.id,
                order: i as u32,
            },
        );
        i = i + 1;
    }
    assert(job_views(jobs@) =~= listed_jobs(directory@, docs@, string_views(names@)));
    jobs
}

/// The index of a list of documents.
fn index_of_list(directory: &str, docs: &Vec<DocSummary>, names: &Vec<String>) -> (r:
    ArticlePathIndex)
    ensures
        r@ == listed_index(directory@, docs@, string_views(names@), docs@.len() as int),
{
    let mut index = ArticlePathIndex::new();
    let mut i: usize = 0;
    while i < docs.len()
        invariant
            i <= docs@.len(),
            index@ == listed_index(directory@, docs@, string_views(names@), i as int),
        decreases docs@.len() - i,
    {
        let doc = &docs[i];
        index.insert(doc.slug.clone(), path_of_listed(directory, name_of(names, i)));
        i = i + 1;
    }
    index
}

/// A copy of the outline without its first entry.
fn outline_without_first(toc: &Option<Vec<TocEntry>>) -> (r: Vec<TocEntry>)
    ensures
        entry_views(r@) == outline_of(*toc),
{
    let mut rest: Vec<TocEntry> = Vec::new();
    match toc {
        Some(entries) => {
            let mut i: usize = 1;
            while i < entries.len()
                invariant
                    1 <= i,
                    i <= entries@.len() || entries@.len() == 0,
                    rest@.len() == if entries@.len() == 0 {
                        0
                    } else {
                        i - 1
                    },
                    forall|k: int| 0 <= k < rest@.len() ==> #[trigger] rest@[k] == entries@[k + 1],
                decreases entries@.len() - i,
            {
                rest.push(entries[i].clone());
                i = i + 1;
            }
            assert(entry_views(rest@) =~= outline_of(*toc));
        },
        None => {
            assert(entry_views(rest@) =~= outline_of(*toc));
        },
    }
    rest
}

// ---------------------------------------------------------------------------
// The generator

/// The indexes of all namespaces, each under the name of its namespace.
pub struct NamespaceIndex {
    namespaces: StrMap<ArticlePathIndex>,
}

impl NamespaceIndex {
    /// The pairs of namespace and index, in the order in which the
    /// namespaces came.
    pub closed spec fn view(&self) -> Seq<(Seq<char>, Seq<(Seq<char>, Seq<char>)>)> {
        Seq::new(
            self.namespaces.entries().len(),
            |i: int| (self.namespaces.entries()[i].0, self.namespaces.entries()[i].1@),
        )
    }

    /// No namespace.
    pub fn new() -> (r: Self)
        ensures
            r@ == Seq::<(Seq<char>, Seq<(Seq<char>, Seq<char>)>)>::empty(),
    {
        let r = NamespaceIndex { namespaces: StrMap::new() };
        assert(r@ =~= Seq::<(Seq<char>, Seq<(Seq<char>, Seq<char>)>)>::empty());
        r
    }

    /// Puts the index of a namespace in the place of the one it had.
    pub fn insert(&mut self, namespace: String, index: ArticlePathIndex)
        ensures
            final(self)@ == inserted(old(self)@, namespace@, index@),
    {
        proof {
            lemma_same_positions(old(self).namespaces.entries(), old(self)@, namespace@);
        }
        self.namespaces.insert(namespace, index);
        proof {
            let at = position_of(old(self)@, namespace@);
            lemma_position_of(old(self)@, namespace@);
            assert(self.namespaces.entries() == inserted(
                old(self).namespaces.entries(),
                namespace@,
                index,
            ));
            if at < old(self)@.len() {
                assert(self@ =~= old(self)@.update(at, (namespace@, index@)));
            } else {
                assert(self@ =~= old(self)@.push((namespace@, index@)));
            }
        }
    }

    /// The index of a namespace.
    pub fn get(&self, namespace: &str) -> (r: Option<&ArticlePathIndex>)
        ensures
            match r {
                Some(index) => lookup(self@, namespace@) == Some(index@),
                None => lookup(self@, namespace@) is None,
            },
    {
        proof {
            lemma_same_positions(self.namespaces.entries(), self@, namespace@);
            lemma_position_of(self@, namespace@);
            let at = position_of(self@, namespace@);
            if at < self@.len() {
                assert(self@[at].1 == self.namespaces.entries()[at].1@);
            }
        }
        self.namespaces.get(namespace)
    }
}

/// What is known of a namespace once it was written.
#[derive(Debug, PartialEq, Eq)]
pub struct Generated {
    pub namespace: Namespace,
    pub navbar_item: NavbarItem,
    pub book: (i32, String),
}

/// The items of a list of written namespaces, each with the place that its
/// namespace names.
pub open spec fn places_of(generated: Seq<Generated>) -> Seq<(Seq<char>, NavbarItem)> {
    Seq::new(generated.len(), |i: int| (generated[i].namespace.nav@, generated[i].navbar_item))
}

/// The books of a list of written namespaces.
pub open spec fn books_of(generated: Seq<Generated>) -> Seq<(i32, Seq<char>)> {
    Seq::new(generated.len(), |i: int| (generated[i].book.0, generated[i].book.1@))
}

/// The namespaces of a list of written namespaces, each with its book.
pub open spec fn namespaces_of(generated: Seq<Generated>) -> Seq<(i32, Namespace)> {
    Seq::new(generated.len(), |i: int| (generated[i].book.0, generated[i].namespace))
}

/// The views of a list of books.
pub open spec fn book_views(books: Seq<(i32, String)>) -> Seq<(i32, Seq<char>)> {
    Seq::new(books.len(), |i: int| (books[i].0, books[i].1@))
}

/// The value that was recorded last under a number.
pub open spec fn last_of<V>(pairs: Seq<(i32, V)>, id: i32) -> Option<V>
    decreases pairs.len(),
{
    if pairs.len() == 0 {
        None
    } else if pairs.last().0 == id {
        Some(pairs.last().1)
    } else {
        last_of(pairs.drop_last(), id)
    }
}

/// The position of the first blank at or after `i`, or the length of the
/// text where there is none.
pub open spec fn blank_from(s: Seq<char>, i: int) -> int
    decreases s.len() - i,
{
    if i < 0 || i >= s.len() {
        s.len() as int
    } else if s[i] == ' ' {
        i
    } else {
        blank_from(s, i + 1)
    }
}

/// The parts of a text between its blanks, from position `i` on. Two
/// blanks in a row have an empty part between them, and so has a blank at
/// the end behind it.
pub open spec fn parts_from(s: Seq<char>, i: int) -> Seq<Seq<char>>
    decreases s.len() - i,
{
    if i < 0 || i > s.len() {
        Seq::empty()
    } else {
        let e = blank_from(s, i);
        if e < i || e >= s.len() {
            seq![s.subrange(i, s.len() as int)]
        } else {
            seq![s.subrange(i, e)] + parts_from(s, e + 1)
        }
    }
}

/// A command to run: the program and what is handed to it.
#[derive(Debug, PartialEq, Eq)]
pub struct BuildCommand {
    pub program: String,
    pub args: Vec<String>,
}

/// What is to be done when a knowledge base has changed.
#[derive(Debug, PartialEq, Eq)]
pub struct Regeneration {
    /// The directory to remove.
    pub remove: String,
    /// The namespace to write again, where it is known.
    pub namespace: Option<Namespace>,
}

/// What a run knows: its settings, where it wrote what, and the schemas it
/// found.
pub struct Generator {
    pub host: String,
    pub token: String,
    pub namespaces: Vec<Namespace>,
    pub build_command: String,
    pub article_path: NamespaceIndex,
    pub schemas: SchemaTable,
    pub ns_id_path: Vec<(i32, String)>,
    pub id_ns: Vec<(i32, Namespace)>,
}

/// What a whole run hands on: the navigation bar and the report of the
/// schemas.
pub struct SiteReport {
    pub navbar: Vec<NavbarEntry>,
    pub schemas: SchemaReport,
}

/// `blank_from` lies between its start and the end of the text, and no blank
/// stands before it.
proof fn lemma_blank_from(s: Seq<char>, i: int)
    requires
        0 <= i <= s.len(),
    ensures
        i <= blank_from(s, i) <= s.len(),
        blank_from(s, i) < s.len() ==> s[blank_from(s, i)] == ' ',
        forall|k: int| i <= k < blank_from(s, i) ==> s[k] != ' ',
    decreases s.len() - i,
{
    if i < s.len() && s[i] != ' ' {
        lemma_blank_from(s, i + 1);
    }
}

/// Finds the first blank at or after a position.
fn find_blank(v: &Vec<char>, from: usize) -> (r: usize)
    requires
        from <= v@.len(),
    ensures
        r == blank_from(v@, from as int),
        from <= r <= v@.len(),
{
    let mut e: usize = from;
    while e < v.len() && v[e] != ' '
        invariant
            from <= e <= v@.len(),
            blank_from(v@, from as int) == blank_from(v@, e as int),
        decreases v@.len() - e,
    {
        e = e + 1;
    }
    proof {
        lemma_blank_from(v@, from as int);
    }
    e
}

/// Splits a text at its blanks, from a position on.
fn split_blanks(v: &Vec<char>, from: usize) -> (r: Vec<String>)
    requires
        from <= v@.len(),
    ensures
        string_views(r@) == parts_from(v@, from as int),
{
    let mut parts: Vec<String> = Vec::new();
    let mut start: usize = from;
    let mut done: bool = false;
    assert(string_views(parts@) =~= Seq::<Seq<char>>::empty());
    while !done
        invariant
            from <= start <= v@.len(),
            !done ==> parts_from(v@, from as int) == string_views(parts@) + parts_from(
                v@,
                start as int,
            ),
            done ==> parts_from(v@, from as int) == string_views(parts@),
        decreases v@.len() - start + if done {
            0int
        } else {
            1int
        },
    {
        let e = find_blank(v, start);
        let ghost before = string_views(parts@);
        if e >= v.len() {
            let part = slice_of(v, start, v.len());
            parts.push(string_of(&part));
            assert(string_views(parts@) =~= before + seq![part@]);
            done = true;
        } else {
            let part = slice_of(v, start, e);
            parts.push(string_of(&part));
            assert(string_views(parts@) =~= before + seq![part@]);
            start = e + 1;
        }
    }
    parts
}

impl Generator {
    /// A generator for the given settings that has written nothing yet.
    pub fn from_config(config: CheckedGeneratorConfig) -> (r: Self)
        ensures
            r.host == config.host,
            r.token == config.token,
            r.namespaces == config.namespaces,
            r.build_command == config.build_command,
            r.article_path@.len() == 0,
            r.schemas@.len() == 0,
            r.ns_id_path@.len() == 0,
            r.id_ns@.len() == 0,
    {
        let CheckedGeneratorConfig { host, token, namespaces, build_command } = config;
        Generator {
            host,
            token,
            namespaces,
            build_command,
            article_path: NamespaceIndex::new(),
            schemas: SchemaTable::new(),
            ns_id_path: Vec::new(),
            id_ns: Vec::new(),
        }
    }

    /// Plans the writing of one namespace whose directory and whose entries'
    /// names on disk are given, and records where each of its documents
    /// will lie.
    ///
    /// With an outline, the outline without its first entry is resolved to
    /// paths; without one, every listed document goes into the namespace's
    /// directory. In both cases the index of the namespace is replaced by
    /// the new one before any document is written, the places in the
    /// sidebar are the places in the list, and the namespace gets a landing
    /// page with its name and description. A namespace with more entries
    /// than places can be counted is refused.
    pub fn plan_namespace(
        &mut self,
        ns: &Namespace,
        repo: &Repository,
        docs: &Vec<DocSummary>,
        directory: &str,
        names: &Vec<String>,
    ) -> (r: Result<NamespacePlan, Error>)
        ensures
            final(self).host == old(self).host,
            final(self).token == old(self).token,
            final(self).namespaces == old(self).namespaces,
            final(self).build_command == old(self).build_command,
            final(self).schemas == old(self).schemas,
            final(self).ns_id_path == old(self).ns_id_path,
            final(self).id_ns == old(self).id_ns,
            r is Ok <==> planned_len(*ns, *repo, docs@) <= u32::MAX,
            match r {
                Ok(plan) => {
                    &&& final(self).article_path@ == inserted(
                        old(self).article_path@,
                        repo.namespace@,
                        planned_index(*ns, *repo, docs@, directory@, string_views(names@)),
                    )
                    &&& job_views(plan.jobs@) == planned_jobs(
                        *ns,
                        *repo,
                        docs@,
                        directory@,
                        string_views(names@),
                    )
                    &&& plan.navbar_item.text@ == ns.text@
                    &&& plan.navbar_item.link@ == seq!['/'] + directory@ + seq!['/']
                    &&& plan.navbar_item.items is None
                    &&& plan.index_path@ == "docs/"@ + directory@ + "/index.md"@
                    &&& plan.index_content@ == "# "@ + repo.name@ + "\n"@ + match repo.description {
                        Some(text) => text@,
                        None => Seq::empty(),
                    }
                    &&& plan.book.0 == repo.id
                    &&& plan.book.1@ == "docs/"@ + directory@ + seq!['/']
                },
                Err(e) => {
                    &&& final(self).article_path == old(self).article_path
                    &&& e@ == ErrorView::Internal("the namespace has too many entries"@)
                },
            },
    {
        let (jobs, index): (Vec<Job>, ArticlePathIndex) = if ns.toc {
            let outline = outline_without_first(&repo.toc);
            if outline.len() > u32::MAX as usize {
                return Err(Error::Internal("the namespace has too many entries".to_owned()));
            }
            let paths = resolve_paths(directory, &outline, names);
            assert(path_views(paths@).len() == paths@.len());
            assert(entry_views(outline@).len() == outline@.len());
            (jobs_of_outline(&paths), index_of_outline(&paths))
        } else {
            if docs.len() > u32::MAX as usize {
                return Err(Error::Internal("the namespace has too many entries".to_owned()));
            }
            (jobs_of_list(directory, docs, names), index_of_list(directory, docs, names))
        };
        self.article_path.insert(repo.namespace.clone(), index);
        let mut link = concat("/", directory);
        link.append("/");
        let mut index_path = concat("docs/", directory);
        index_path.append("/index.md");
        let mut index_content = heading_line(repo.name.as_str());
        match &repo.description {
            Some(text) => {
                index_content.append(text.as_str());
            },
            None => {
                assert(index_content@ + Seq::<char>::empty() =~= index_content@);
            },
        }
        let mut book_path = concat("docs/", directory);
        book_path.append("/");
        proof {
            reveal_strlit("/");
            assert("/"@ =~= seq!['/']);
        }
        Ok(
            NamespacePlan {
                jobs,
                navbar_item: NavbarItem { text: ns.text.clone(), link, items: None },
                index_path,
                index_content,
                book: (repo.id, book_path),
            },
        )
    }

    /// Plans the writing of one namespace from what the service told of it,
    /// and records where each of its documents will lie. The directory of
    /// the namespace is its name in lower case, and each entry has the name
    /// on disk of its title.
    pub fn generate_one(&mut self, ns: &Namespace, repo: &Repository, docs: &Vec<DocSummary>) -> (r:
        Result<NamespacePlan, Error>)
        ensures
            final(self).host == old(self).host,
            final(self).token == old(self).token,
            final(self).namespaces == old(self).namespaces,
            final(self).build_command == old(self).build_command,
            final(self).schemas == old(self).schemas,
            final(self).ns_id_path == old(self).ns_id_path,
            final(self).id_ns == old(self).id_ns,
            r is Ok <==> planned_len(*ns, *repo, docs@) <= u32::MAX,
            match r {
                Ok(plan) => {
                    &&& final(self).article_path@ == inserted(
                        old(self).article_path@,
                        repo.namespace@,
                        planned_index(
                            *ns,
                            *repo,
                            docs@,
                            namespace_slug(repo.name@),
                            planned_names(*ns, *repo, docs@),
                        ),
                    )
                    &&& job_views(plan.jobs@) == planned_jobs(
                        *ns,
                        *repo,
                        docs@,
                        namespace_slug(repo.name@),
                        planned_names(*ns, *repo, docs@),
                    )
                    &&& plan.navbar_item.text@ == ns.text@
                    &&& plan.navbar_item.link@ == seq!['/'] + namespace_slug(repo.name@) + seq![
                        '/',
                    ]
                    &&& plan.navbar_item.items is None
                    &&& plan.index_path@ == "docs/"@ + namespace_slug(repo.name@) + "/index.md"@
                    &&& plan.index_content@ == "# "@ + repo.name@ + "\n"@ + match repo.description {
                        Some(text) => text@,
                        None => Seq::empty(),
                    }
                    &&& plan.book.0 == repo.id
                    &&& plan.book.1@ == "docs/"@ + namespace_slug(repo.name@) + seq!['/']
                },
                Err(e) => {
                    &&& final(self).article_path == old(self).article_path
                    &&& e@ == ErrorView::Internal("the namespace has too many entries"@)
                },
            },
    {
        let directory: String = repo.name.as_str().to_lowercase();
        let mut names: Vec<String> = Vec::new();
        if ns.toc {
            match &repo.toc {
                Some(entries) => {
                    let mut i: usize = 1;
                    while i < entries.len()
                        invariant
                            1 <= i,
                            i <= entries@.len() || entries@.len() == 0,
                            repo.toc == Some(*entries),
                            names@.len() == if entries@.len() == 0 {
                                0
                            } else {
                                i - 1
                            },
                            forall|k: int|
                                0 <= k < names@.len() ==> (#[trigger] names@[k])@ == slug(
                                    entries@[k + 1]@.title(),
                                ),
                        decreases entries@.len() - i,
                    {
                        names.push(to_pinyin_or_lowercase(entries[i].title().as_str()));
                        i = i + 1;
                    }
                },
                None => {},
            }
        } else {
            let mut i: usize = 0;
            while i < docs.len()
                invariant
                    i <= docs@.len(),
                    names@.len() == i,
                    forall|k: int| 0 <= k < i ==> (#[trigger] names@[k])@ == slug(docs@[k].title@),
                decreases docs@.len() - i,
            {
                names.push(to_pinyin_or_lowercase(docs[i].title.as_str()));
                i = i + 1;
            }
        }
        assert(string_views(names@) =~= planned_names(*ns, *repo, docs@));
        self.plan_namespace(ns, repo, docs, directory.as_str(), &names)
    }

    /// Closes a run over all namespaces: records where each knowledge base
    /// lies and which namespace it belongs to, and hands out the navigation
    /// bar and the report of the schemas.
    pub fn generate_all(&mut self, generated: Vec<Generated>) -> (r: SiteReport)
        ensures
            final(self).host == old(self).host,
            final(self).token == old(self).token,
            final(self).namespaces == old(self).namespaces,
            final(self).build_command == old(self).build_command,
            final(self).schemas == old(self).schemas,
            final(self).article_path == old(self).article_path,
            book_views(final(self).ns_id_path@) == book_views(old(self).ns_id_path@) + books_of(
                generated@,
            ),
            final(self).id_ns@ == old(self).id_ns@ + namespaces_of(generated@),
            navbar_views(r.navbar@) == navbar_of(places_of(generated@)),
            crate::schema::entry_views(r.schemas.introductions@) == crate::schema::gathered(
                old(self).schemas@,
                crate::schema::introduction_key(),
            ),
            crate::schema::entry_views(r.schemas.links@) == crate::schema::gathered(
                old(self).schemas@,
                crate::schema::links_key(),
            ),
            crate::schema::unused_views(r.schemas.unused@) == crate::schema::left_over(
                old(self).schemas@,
            ),
    {
        let ghost all = generated@;
        let ghost books_before = book_views(self.ns_id_path@);
        let ghost namespaces_before = self.id_ns@;
        let mut rest = generated;
        let mut placed: Vec<(String, NavbarItem)> = Vec::new();
        let ghost mut done: int = 0;
        proof {
            assert(all.skip(0) =~= all);
            assert(book_views(self.ns_id_path@) =~= books_before + books_of(all).take(0));
            assert(self.id_ns@ =~= namespaces_before + namespaces_of(all).take(0));
            assert(place_views(placed@) =~= places_of(all).take(0));
        }
        while rest.len() > 0
            invariant
                0 <= done <= all.len(),
                rest@ == all.skip(done),
                place_views(placed@) == places_of(all).take(done),
                book_views(self.ns_id_path@) == books_before + books_of(all).take(done),
                self.id_ns@ == namespaces_before + namespaces_of(all).take(done),
                self.host == old(self).host,
                self.token == old(self).token,
                self.namespaces == old(self).namespaces,
                self.build_command == old(self).build_command,
                self.schemas == old(self).schemas,
                self.article_path == old(self).article_path,
            decreases rest@.len(),
        {
            proof {
                assert(all.skip(done).len() == all.len() - done);
                assert(all.skip(done)[0] == all[done]);
            }
            let one = rest.remove(0);
            proof {
                assert(one == all[done]);
                assert(rest@ =~= all.skip(done + 1));
            }
            let Generated { namespace, navbar_item, book } = one;
            let ghost books_so_far = book_views(self.ns_id_path@);
            let ghost places_so_far = place_views(placed@);
            self.ns_id_path.push((book.0, book.1));
            self.id_ns.push((book.0, namespace.clone()));
            placed.push((namespace.nav, navbar_item));
            proof {
                assert(book_views(self.ns_id_path@) =~= books_so_far.push((book.0, book.1@)));
                assert(books_of(all).take(done + 1) =~= books_of(all).take(done).push(
                    (book.0, book.1@),
                ));
                assert(namespaces_of(all).take(done + 1) =~= namespaces_of(all).take(done).push(
                    (book.0, namespace),
                ));
                assert(book_views(self.ns_id_path@) =~= books_before + books_of(all).take(done + 1));
                assert(self.id_ns@ =~= namespaces_before + namespaces_of(all).take(done + 1));
                assert(place_views(placed@) =~= places_so_far.push((namespace.nav@, navbar_item)));
                assert(places_of(all).take(done + 1) =~= places_of(all).take(done).push(
                    (namespace.nav@, navbar_item),
                ));
                done = done + 1;
            }
        }
        proof {
            assert(all.skip(done).len() == all.len() - done);
            assert(places_of(all).take(all.len() as int) =~= places_of(all));
            assert(books_of(all).take(all.len() as int) =~= books_of(all));
            assert(namespaces_of(all).take(all.len() as int) =~= namespaces_of(all));
        }
        SiteReport { navbar: build_navbar(placed), schemas: aggregate_schemas(&self.schemas) }
    }

    /// The command that builds the site: the program before the first
    /// blank of the configured command, and what stands between the blanks
    /// after it. A command without a blank is refused.
    pub fn build(&self) -> (r: Result<BuildCommand, Error>)
        ensures
            match r {
                Ok(command) => {
                    let at = blank_from(self.build_command@, 0);
                    &&& at < self.build_command@.len()
                    &&& command.program@ == self.build_command@.subrange(0, at)
                    &&& string_views(command.args@) == parts_from(self.build_command@, at + 1)
                },
                Err(e) => {
                    &&& blank_from(self.build_command@, 0) >= self.build_command@.len()
                    &&& e@ == ErrorView::InvalidBuildCommand(self.build_command@)
                },
            },
    {
        let chars = chars_of(self.build_command.as_str());
        let at = find_blank(&chars, 0);
        if at >= chars.len() {
            return Err(Error::InvalidBuildCommand(self.build_command.clone()));
        }
        let program = string_of(&slice_of(&chars, 0, at));
        let args = split_blanks(&chars, at + 1);
        Ok(BuildCommand { program, args })
    }

    /// The directory of a knowledge base, as it was recorded last.
    pub fn clean(&self, book_id: i32) -> (r: Option<String>)
        ensures
            opt_view(r) == last_of(book_views(self.ns_id_path@), book_id),
    {
        let mut i: usize = self.ns_id_path.len();
        assert(book_views(self.ns_id_path@).take(i as int) =~= book_views(self.ns_id_path@));
        while i > 0
            invariant
                i <= self.ns_id_path@.len(),
                last_of(book_views(self.ns_id_path@), book_id) == last_of(
                    book_views(self.ns_id_path@).take(i as int),
                    book_id,
                ),
            decreases i,
        {
            let ghost head = book_views(self.ns_id_path@).take(i as int);
            assert(head.drop_last() =~= book_views(self.ns_id_path@).take(i - 1));
            assert(head.last() == book_views(self.ns_id_path@)[i - 1]);
            if self.ns_id_path[i - 1].0 == book_id {
                return Some(self.ns_id_path[i - 1].1.clone());
            }
            i = i - 1;
        }
        None
    }

    /// What is to be done when a knowledge base has changed: its directory
    /// is removed and its namespace, where one is known, is written again.
    /// Nothing is done for a knowledge base that was never written.
    pub fn regenerate(&self, book_id: i32) -> (r: Option<Regeneration>)
        ensures
            match r {
                Some(plan) => {
                    &&& last_of(book_views(self.ns_id_path@), book_id) == Some(plan.remove@)
                    &&& plan.namespace == last_of(self.id_ns@, book_id)
                },
                None => last_of(book_views(self.ns_id_path@), book_id) is None,
            },
    {
        let remove: String = match self.clean(book_id) {
            Some(path) => path,
            None => {
                return None;
            },
        };
        let mut namespace: Option<Namespace> = None;
        let mut i: usize = self.id_ns.len();
        assert(self.id_ns@.take(i as int) =~= self.id_ns@);
        while i > 0
            invariant
                i <= self.id_ns@.len(),
                namespace is None,
                last_of(book_views(self.ns_id_path@), book_id) == Some(remove@),
                last_of(self.id_ns@, book_id) == last_of(self.id_ns@.take(i as int), book_id),
            decreases i,
        {
            let ghost head = self.id_ns@.take(i as int);
            assert(head.drop_last() =~= self.id_ns@.take(i - 1));
            assert(head.last() == self.id_ns@[i - 1]);
            if self.id_ns[i - 1].0 == book_id {
                return Some(Regeneration { remove, namespace: Some(self.id_ns[i - 1].1.clone()) });
            }
            i = i - 1;
        }
        Some(Regeneration { remove, namespace })
    }
}

} // verus!
