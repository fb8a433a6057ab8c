//! The outline of a knowledge base, the files it resolves to, and the
//! navigation that is read back from them.

pub mod generate;
pub mod parse;

use vstd::prelude::*;
use crate::error::{Error, ErrorView};
use crate::text::{
    chars_of, extend, lemma_line_end, lemma_lines_concat, line_end, lines, lines_from, opt_view,
    split_lines, string_of, strip_cr, views,
};

verus! {

/// One entry of the sidebar, with the entries below it.
#[derive(Debug, PartialEq, Eq)]
pub struct SidebarItem {
    pub text: String,
    pub link: String,
    pub items: Option<Vec<SidebarItem>>,
    pub collapsed: Option<bool>,
    pub order: u32,
}

/// A sidebar entry with its texts as sequences.
pub struct SidebarItemView {
    pub text: Seq<char>,
    pub link: Seq<char>,
    pub items: Option<Seq<SidebarItemView>>,
    pub collapsed: Option<bool>,
    pub order: u32,
}

/// The view of a sidebar entry and of everything below it.
pub open spec fn sidebar_view(item: SidebarItem) -> SidebarItemView
    decreases item,
{
    SidebarItemView {
        text: item.text@,
        link: item.link@,
        items: match item.items {
            Some(below) => Some(
                Seq::new(
                    below@.len(),
                    |i: int|
                        if 0 <= i < below@.len() {
                            sidebar_view(below@[i])
                        } else {
                            arbitrary()
                        },
                ),
            ),
            None => None,
        },
        collapsed: item.collapsed,
        order: item.order,
    }
}

impl View for SidebarItem {
    type V = SidebarItemView;

    open spec fn view(&self) -> SidebarItemView {
        sidebar_view(*self)
    }
}

/// The views of a list of sidebar entries.
pub open spec fn sidebar_views(items: Seq<SidebarItem>) -> Seq<SidebarItemView> {
    Seq::new(items.len(), |i: int| items[i]@)
}

/// The view of an entry, field by field.
pub proof fn lemma_sidebar_view(item: SidebarItem)
    ensures
        item@.text == item.text@,
        item@.link == item.link@,
        item@.collapsed == item.collapsed,
        item@.order == item.order,
        item@.items == match item.items {
            Some(below) => Some(sidebar_views(below@)),
            None => None,
        },
{
    match item.items {
        Some(below) => {
            assert(item@.items->0 =~= sidebar_views(below@));
        },
        None => {},
    }
}

impl SidebarItem {
    /// A builder with no field set.
    pub fn builder() -> (r: SidebarItemBuilder)
        ensures
            r.text is None,
            r.link is None,
            r.items is None,
            r.collapsed is None,
            r.order is None,
    {
        SidebarItemBuilder { text: None, link: None, items: None, collapsed: None, order: None }
    }

    /// A copy of the entry and of everything below it.
    pub fn duplicate(&self) -> (r: SidebarItem)
        ensures
            r@ == self@,
        decreases self,
    {
        let items: Option<Vec<SidebarItem>> = match &self.items {
            Some(below) => {
                let mut copies: Vec<SidebarItem> = Vec::new();
                let mut i: usize = 0;
                while i < below.len()
                    invariant
                        i <= below@.len(),
                        self.items == Some(*below),
                        copies@.len() == i,
                        forall|k: int| 0 <= k < i ==> (#[trigger] copies@[k])@ == below@[k]@,
                    decreases below@.len() - i,
                {
                    proof {
                        assert(decreases_to!(*self => self.items));
                        assert(decreases_to!(self.items => self.items->0));
                        assert(decreases_to!(self.items->0 => below@));
                        assert(decreases_to!(below@ => below@[i as int]));
                    }
                    copies.push(below[i].duplicate());
                    i = i + 1;
                }
                assert(sidebar_views(copies@) =~= sidebar_views(below@));
                Some(copies)
            },
            None => None,
        };
        let r = SidebarItem {
            text: self.text.clone(),
            link: self.link.clone(),
            items,
            collapsed: self.collapsed,
            order: self.order,
        };
        proof {
            lemma_sidebar_view(r);
            lemma_sidebar_view(*self);
        }
        r
    }
}

/// Why a builder could not build.
#[derive(Debug, PartialEq, Eq)]
pub enum SidebarItemBuilderError {
    /// A field without a default was not set.
    UninitializedField(&'static str),
    /// A field was set to a value that is not accepted.
    ValidationError(String),
}

/// The text that a builder error shows.
pub open spec fn builder_error_message(field: Seq<char>) -> Seq<char> {
    "`"@ + field + "` must be initialized"@
}

impl SidebarItemBuilderError {
    /// The text that the error shows.
    pub fn message(&self) -> (r: String)
        ensures
            r@ == match *self {
                SidebarItemBuilderError::UninitializedField(field) => builder_error_message(field@),
                SidebarItemBuilderError::ValidationError(text) => text@,
            },
    {
        match self {
            SidebarItemBuilderError::UninitializedField(field) => {
                let mut r = "`".to_owned();
                r.append(field);
                r.append("` must be initialized");
                r
            },
            SidebarItemBuilderError::ValidationError(text) => text.clone(),
        }
    }

    /// The library's error for a builder error.
    pub fn into_error(self) -> (r: Error)
        ensures
            r@ == ErrorView::Internal(
                match self {
                    SidebarItemBuilderError::UninitializedField(field) => builder_error_message(
                        field@,
                    ),
                    SidebarItemBuilderError::ValidationError(text) => text@,
                },
            ),
    {
        Error::Internal(self.message())
    }
}

/// Collects the fields of a sidebar entry one by one.
pub struct SidebarItemBuilder {
    pub text: Option<String>,
    pub link: Option<String>,
    pub items: Option<Option<Vec<SidebarItem>>>,
    pub collapsed: Option<Option<bool>>,
    pub order: Option<u32>,
}

/// What a sidebar builder builds: nothing without a text and a link, and
/// otherwise the entry with no children, no collapsed flag and order 0
/// where these were not set.
pub open spec fn built_sidebar_item(b: SidebarItemBuilder) -> Result<
    SidebarItemView,
    Seq<char>,
> {
    if b.text is None {
        Err("text"@)
    } else if b.link is None {
        Err("link"@)
    } else {
        Ok(
            SidebarItemView {
                text: b.text->0@,
                link: b.link->0@,
                items: match b.items {
                    Some(Some(below)) => Some(sidebar_views(below@)),
                    _ => None,
                },
                collapsed: match b.collapsed {
                    Some(flag) => flag,
                    None => None,
                },
                order: match b.order {
                    Some(order) => order,
                    None => 0,
                },
            },
        )
    }
}

impl SidebarItemBuilder {
    /// Sets `text`.
    pub fn text(&mut self, value: String) -> (r: &mut Self)
        ensures
            r.text == Some(value),
            r.link == old(self).link,
            r.items == old(self).items,
            r.collapsed == old(self).collapsed,
            r.order == old(self).order,
            *final(self) == *final(r),
    {
        self.text = Some(value);
        self
    }

    /// Sets `link`.
    pub fn link(&mut self, value: String) -> (r: &mut Self)
        ensures
            r.link == Some(value),
            r.text == old(self).text,
            r.items == old(self).items,
            r.collapsed == old(self).collapsed,
            r.order == old(self).order,
            *final(self) == *final(r),
    {
        self.link = Some(value);
        self
    }

    /// Sets `items`.
    pub fn items(&mut self, value: Option<Vec<SidebarItem>>) -> (r: &mut Self)
        ensures
            r.items == Some(value),
            r.text == old(self).text,
            r.link == old(self).link,
            r.collapsed == old(self).collapsed,
            r.order == old(self).order,
            *final(self) == *final(r),
    {
        self.items = Some(value);
        self
    }

    /// Sets `collapsed`.
    pub fn collapsed(&mut self, value: Option<bool>) -> (r: &mut Self)
        ensures
            r.collapsed == Some(value),
            r.text == old(self).text,
            r.link == old(self).link,
            r.items == old(self).items,
            r.order == old(self).order,
            *final(self) == *final(r),
    {
        self.collapsed = Some(value);
        self
    }

    /// Sets `order`.
    pub fn order(&mut self, value: u32) -> (r: &mut Self)
        ensures
            r.order == Some(value),
            r.text == old(self).text,
            r.link == old(self).link,
            r.items == old(self).items,
            r.collapsed == old(self).collapsed,
            *final(self) == *final(r),
    {
        self.order = Some(value);
        self
    }

    /// Builds the entry from the fields that were set.
    pub fn build(&self) -> (r: Result<SidebarItem, SidebarItemBuilderError>)
        ensures
            match r {
                Ok(item) => built_sidebar_item(*self) == Ok::<SidebarItemView, Seq<char>>(item@),
                Err(SidebarItemBuilderError::UninitializedField(field)) => built_sidebar_item(*self)
                    == Err::<SidebarItemView, Seq<char>>(field@),
                Err(SidebarItemBuilderError::ValidationError(_)) => false,
            },
    {
        let text: String = match &self.text {
            Some(text) => text.clone(),
            None => {
                return Err(SidebarItemBuilderError::UninitializedField("text"));
            },
        };
        let link: String = match &self.link {
            Some(link) => link.clone(),
            None => {
                return Err(SidebarItemBuilderError::UninitializedField("link"));
            },
        };
        let items: Option<Vec<SidebarItem>> = match &self.items {
            Some(Some(below)) => {
                let mut copies: Vec<SidebarItem> = Vec::new();
                let mut i: usize = 0;
                while i < below.len()
                    invariant
                        i <= below@.len(),
                        copies@.len() == i,
                        forall|k: int| 0 <= k < i ==> (#[trigger] copies@[k])@ == below@[k]@,
                    decreases below@.len() - i,
                {
                    copies.push(below[i].duplicate());
                    i = i + 1;
                }
                assert(sidebar_views(copies@) =~= sidebar_views(below@));
                Some(copies)
            },
            _ => None,
        };
        let collapsed: Option<bool> = match self.collapsed {
            Some(flag) => flag,
            None => None,
        };
        let order: u32 = match self.order {
            Some(order) => order,
            None => 0,
        };
        let item = SidebarItem { text, link, items, collapsed, order };
        proof {
            lemma_sidebar_view(item);
        }
        Ok(item)
    }
}

impl Default for SidebarItemBuilder {
    fn default() -> (r: Self)
        ensures
            r.text is None,
            r.link is None,
            r.items is None,
            r.collapsed is None,
            r.order is None,
    {
        SidebarItem::builder()
    }
}

// ---------------------------------------------------------------------------
// The header of a file

/// The header of a written file: what the sidebar shows for it and where,
/// and what the page shows as its title.
#[derive(Debug, PartialEq, Eq)]
pub struct Frontmatter {
    pub title: Option<String>,
    pub title_template: Option<String>,
    pub sidebar: String,
    pub order: u32,
    pub description: Option<String>,
    pub have_content: bool,
}

/// A header with its texts as sequences.
pub struct FrontmatterView {
    pub title: Option<Seq<char>>,
    pub title_template: Option<Seq<char>>,
    pub sidebar: Seq<char>,
    pub order: u32,
    pub description: Option<Seq<char>>,
    pub have_content: bool,
}

impl View for Frontmatter {
    type V = FrontmatterView;

    open spec fn view(&self) -> FrontmatterView {
        FrontmatterView {
            title: opt_view(self.title),
            title_template: opt_view(self.title_template),
            sidebar: self.sidebar@,
            order: self.order,
            description: opt_view(self.description),
            have_content: self.have_content,
        }
    }
}

/// A copy of an optional text.
fn clone_opt(o: &Option<String>) -> (r: Option<String>)
    ensures
        r == *o,
{
    match o {
        Some(s) => Some(s.clone()),
        None => None,
    }
}

impl Clone for Frontmatter {
    fn clone(&self) -> (r: Self)
        ensures
            r == *self,
    {
        Frontmatter {
            title: clone_opt(&self.title),
            title_template: clone_opt(&self.title_template),
            sidebar: self.sidebar.clone(),
            order: self.order,
            description: clone_opt(&self.description),
            have_content: self.have_content,
        }
    }
}

/// Whether a file has content where its header does not say.
pub const HAVE_CONTENT: bool = true;

/// Whether a file has content where its header does not say: it has.
pub fn default_have_content() -> (r: bool)
    ensures
        r == HAVE_CONTENT,
{
    HAVE_CONTENT
}

/// Why a header builder could not build.
#[derive(Debug, PartialEq, Eq)]
pub enum FrontmatterBuilderError {
    /// A field without a default was not set.
    UninitializedField(&'static str),
    /// A field was set to a value that is not accepted.
    ValidationError(String),
}

impl FrontmatterBuilderError {
    /// The text that the error shows.
    pub fn message(&self) -> (r: String)
        ensures
            r@ == match *self {
                FrontmatterBuilderError::UninitializedField(field) => builder_error_message(field@),
                FrontmatterBuilderError::ValidationError(text) => text@,
            },
    {
        match self {
            FrontmatterBuilderError::UninitializedField(field) => {
                let mut r = "`".to_owned();
                r.append(field);
                r.append("` must be initialized");
                r
            },
            FrontmatterBuilderError::ValidationError(text) => text.clone(),
        }
    }

    /// The library's error for a builder error.
    pub fn into_error(self) -> (r: Error)
        ensures
            r@ == ErrorView::Internal(
                match self {
                    FrontmatterBuilderError::UninitializedField(field) => builder_error_message(
                        field@,
                    ),
                    FrontmatterBuilderError::ValidationError(text) => text@,
                },
            ),
    {
        Error::Internal(self.message())
    }
}

/// Collects the fields of a header one by one.
pub struct FrontmatterBuilder {
    pub title: Option<Option<String>>,
    pub title_template: Option<Option<String>>,
    pub sidebar: Option<String>,
    pub order: Option<u32>,
    pub description: Option<Option<String>>,
    pub have_content: Option<bool>,
}

/// A field that was set, or nothing where it was not.
pub open spec fn set_or_none(field: Option<Option<String>>) -> Option<Seq<char>> {
    match field {
        Some(value) => opt_view(value),
        None => None,
    }
}

/// What a header builder builds: nothing without a sidebar text and an
/// order, and otherwise the header, with content unless that was set
/// otherwise, and without the texts that were not set.
pub open spec fn built_frontmatter(b: FrontmatterBuilder) -> Result<FrontmatterView, Seq<char>> {
    if b.sidebar is None {
        Err("sidebar"@)
    } else if b.order is None {
        Err("order"@)
    } else {
        Ok(
            FrontmatterView {
                title: set_or_none(b.title),
                title_template: set_or_none(b.title_template),
                sidebar: b.sidebar->0@,
                order: b.order->0,
                description: set_or_none(b.description),
                have_content: match b.have_content {
                    Some(flag) => flag,
                    None => HAVE_CONTENT,
                },
            },
        )
    }
}

/// A copy of a text that was set, or nothing.
fn clone_set(field: &Option<Option<String>>) -> (r: Option<String>)
    ensures
        opt_view(r) == set_or_none(*field),
{
    match field {
        Some(Some(value)) => Some(value.clone()),
        _ => None,
    }
}

impl FrontmatterBuilder {
    /// Sets `title`.
    pub fn title(&mut self, value: Option<String>) -> (r: &mut Self)
        ensures
            r.title == Some(value),
            r.title_template == old(self).title_template,
            r.sidebar == old(self).sidebar,
            r.order == old(self).order,
            r.description == old(self).description,
            r.have_content == old(self).have_content,
            *final(self) == *final(r),
    {
        self.title = Some(value);
        self
    }

    /// Sets `title_template`.
    pub fn title_template(&mut self, value: Option<String>) -> (r: &mut Self)
        ensures
            r.title_template == Some(value),
            r.title == old(self).title,
            r.sidebar == old(self).sidebar,
            r.order == old(self).order,
            r.description == old(self).description,
            r.have_content == old(self).have_content,
            *final(self) == *final(r),
    {
        self.title_template = Some(value);
        self
    }

    /// Sets `sidebar`.
    pub fn sidebar(&mut self, value: String) -> (r: &mut Self)
        ensures
            r.sidebar == Some(value),
            r.title == old(self).title,
            r.title_template == old(self).title_template,
            r.order == old(self).order,
            r.description == old(self).description,
            r.have_content == old(self).have_content,
            *final(self) == *final(r),
    {
        self.sidebar = Some(value);
        self
    }

    /// Sets `order`.
    pub fn order(&mut self, value: u32) -> (r: &mut Self)
        ensures
            r.order == Some(value),
            r.title == old(self).title,
            r.title_template == old(self).title_template,
            r.sidebar == old(self).sidebar,
            r.description == old(self).description,
            r.have_content == old(self).have_content,
            *final(self) == *final(r),
    {
        self.order = Some(value);
        self
    }

    /// Sets `description`.
    pub fn description(&mut self, value: Option<String>) -> (r: &mut Self)
        ensures
            r.description == Some(value),
            r.title == old(self).title,
            r.title_template == old(self).title_template,
            r.sidebar == old(self).sidebar,
            r.order == old(self).order,
            r.have_content == old(self).have_content,
            *final(self) == *final(r),
    {
        self.description = Some(value);
        self
    }

    /// Sets `have_content`.
    pub fn have_content(&mut self, value: bool) -> (r: &mut Self)
        ensures
            r.have_content == Some(value),
            r.title == old(self).title,
            r.title_template == old(self).title_template,
            r.sidebar == old(self).sidebar,
            r.order == old(self).order,
            r.description == old(self).description,
            *final(self) == *final(r),
    {
        self.have_content = Some(value);
        self
    }

    /// Builds the header from the fields that were set.
    pub fn build(&self) -> (r: Result<Frontmatter, FrontmatterBuilderError>)
        ensures
            match r {
                Ok(header) => built_frontmatter(*self) == Ok::<FrontmatterView, Seq<char>>(header@),
                Err(FrontmatterBuilderError::UninitializedField(field)) => built_frontmatter(*self)
                    == Err::<FrontmatterView, Seq<char>>(field@),
                Err(FrontmatterBuilderError::ValidationError(_)) => false,
            },
    {
        let sidebar: String = match &self.sidebar {
            Some(sidebar) => sidebar.clone(),
            None => {
                return Err(FrontmatterBuilderError::UninitializedField("sidebar"));
            },
        };
        let order: u32 = match self.order {
            Some(order) => order,
            None => {
                return Err(FrontmatterBuilderError::UninitializedField("order"));
            },
        };
        let have_content: bool = match self.have_content {
            Some(flag) => flag,
            None => default_have_content(),
        };
        Ok(
            Frontmatter {
                title: clone_set(&self.title),
                title_template: clone_set(&self.title_template),
                sidebar,
                order,
                description: clone_set(&self.description),
                have_content,
            },
        )
    }
}

impl Default for FrontmatterBuilder {
    fn default() -> (r: Self)
        ensures
            r.title is None,
            r.title_template is None,
            r.sidebar is None,
            r.order is None,
            r.description is None,
            r.have_content is None,
    {
        Frontmatter::builder()
    }
}

impl Frontmatter {
    /// A builder with no field set.
    pub fn builder() -> (r: FrontmatterBuilder)
        ensures
            r.title is None,
            r.title_template is None,
            r.sidebar is None,
            r.order is None,
            r.description is None,
            r.have_content is None,
    {
        FrontmatterBuilder {
            title: None,
            title_template: None,
            sidebar: None,
            order: None,
            description: None,
            have_content: None,
        }
    }
}

/// Whether a line opens or closes the header block: it begins with three
/// dashes.
pub open spec fn is_fence(line: Seq<char>) -> bool {
    "---"@.is_prefix_of(line)
}

/// What the reader of a header has seen after the first `n` lines: how
/// many fences, and the lines between the first fence and the second, each
/// with a line feed behind it. After the second fence nothing is read.
pub open spec fn block_state(all: Seq<Seq<char>>, n: int) -> (int, Seq<char>)
    decreases n,
{
    if n <= 0 || n > all.len() {
        (0, Seq::empty())
    } else {
        let before = block_state(all, n - 1);
        if before.0 > 1 {
            before
        } else if is_fence(all[n - 1]) {
            (before.0 + 1, before.1)
        } else if before.0 == 1 {
            (before.0, before.1 + all[n - 1] + seq!['\n'])
        } else {
            before
        }
    }
}

/// The header block of a file: the lines between its first two fences.
pub open spec fn frontmatter_block(text: Seq<char>) -> Seq<char> {
    block_state(lines(text), lines(text).len() as int).1
}

/// A header block between its fences.
pub open spec fn framed(block: Seq<char>) -> Seq<char> {
    "---\n"@ + block + "---\n"@
}

/// A header block as it is written: empty or ending with a line feed, no
/// line feed behind a carriage return, and no line that begins with three
/// dashes.
pub open spec fn is_block(block: Seq<char>) -> bool {
    &&& block.len() == 0 || block.last() == '\n'
    &&& forall|i: int|
        0 <= i < block.len() - 1 && #[trigger] block[i] == '\r' ==> block[i + 1] != '\n'
    &&& forall|k: int| 0 <= k < lines(block).len() ==> !is_fence(#[trigger] lines(block)[k])
}

/// The lines of a text from the line that starts at `i` on, each with a
/// line feed behind it.
pub open spec fn relined(rows: Seq<Seq<char>>, n: int) -> Seq<char>
    decreases n,
{
    if n <= 0 || n > rows.len() {
        Seq::empty()
    } else {
        relined(rows, n - 1) + rows[n - 1] + seq!['\n']
    }
}

/// The lines of a block, each with a line feed behind it, from position `i`
/// on, are the block from that position on.
proof fn lemma_relined(block: Seq<char>, i: int)
    requires
        0 <= i <= block.len(),
        block.len() == 0 || block.last() == '\n',
        forall|k: int|
            0 <= k < block.len() - 1 && #[trigger] block[k] == '\r' ==> block[k + 1] != '\n',
    ensures
        relined(lines_from(block, i), lines_from(block, i).len() as int) == block.skip(i),
    decreases block.len() - i,
{
    let rows = lines_from(block, i);
    if i == block.len() {
        assert(block.skip(i) =~= Seq::<char>::empty());
    } else {
        lemma_line_end(block, i);
        let e = line_end(block, i);
        if e == block.len() {
            assert(block[block.len() - 1] != '\n');
        }
        let first = block.subrange(i, e);
        if first.len() > 0 && first.last() == '\r' {
            assert(block[e - 1] == '\r');
        }
        assert(strip_cr(first, true) == first);
        let rest = lines_from(block, e + 1);
        lemma_relined(block, e + 1);
        assert(rows == seq![first] + rest);
        lemma_relined_behind(first, rest, rest.len() as int);
        assert(relined(seq![first], 1) =~= first + seq!['\n']) by {
            assert(relined(seq![first], 0) =~= Seq::<char>::empty());
        }
        assert(first + seq!['\n'] + block.skip(e + 1) =~= block.skip(i));
    }
}

/// Lines behind one line: the line comes first, then they.
proof fn lemma_relined_behind(first: Seq<char>, rest: Seq<Seq<char>>, n: int)
    requires
        0 <= n <= rest.len(),
    ensures
        relined(seq![first] + rest, n + 1) == first + seq!['\n'] + relined(rest, n),
    decreases n,
{
    let all = seq![first] + rest;
    if n == 0 {
        assert(relined(all, 0) =~= Seq::<char>::empty());
        assert(all[0] == first);
        assert(relined(all, 1) =~= first + seq!['\n'] + relined(rest, 0));
    } else {
        lemma_relined_behind(first, rest, n - 1);
        assert(all[n] == rest[n - 1]);
        assert(relined(all, n + 1) =~= first + seq!['\n'] + relined(rest, n));
    }
}

/// Behind an opening fence the lines of a block are collected as long as
/// none of them is a fence.
proof fn lemma_block_collects(rows: Seq<Seq<char>>, inner: Seq<Seq<char>>, n: int)
    requires
        0 <= n <= inner.len(),
        rows.len() >= 1 + inner.len(),
        is_fence(rows[0]),
        forall|k: int| 0 <= k < inner.len() ==> rows[1 + k] == #[trigger] inner[k],
        forall|k: int| 0 <= k < inner.len() ==> !is_fence(#[trigger] inner[k]),
    ensures
        block_state(rows, 1 + n) == (1int, relined(inner, n)),
    decreases n,
{
    if n == 0 {
        assert(block_state(rows, 0) == (0int, Seq::<char>::empty()));
        assert(relined(inner, 0) =~= Seq::<char>::empty());
    } else {
        lemma_block_collects(rows, inner, n - 1);
        assert(rows[n] == inner[n - 1]);
        assert(!is_fence(inner[n - 1]));
    }
}

/// Behind the closing fence nothing is read.
proof fn lemma_block_closed(rows: Seq<Seq<char>>, m: int, n: int)
    requires
        0 <= m <= n <= rows.len(),
        block_state(rows, m).0 > 1,
    ensures
        block_state(rows, n) == block_state(rows, m),
    decreases n - m,
{
    if m < n {
        lemma_block_closed(rows, m, n - 1);
    }
}

/// A header block that was written is read back unchanged, whatever
/// follows it in the file.
pub proof fn lemma_written_block_is_read_back(block: Seq<char>, rest: Seq<char>)
    requires
        is_block(block),
    ensures
        frontmatter_block(framed(block) + rest) == block,
{
    reveal_strlit("---\n");
    reveal_strlit("---");
    let fence_line = "---\n"@;
    let fence = "---"@;
    let file = framed(block) + rest;
    let tail = fence_line + rest;
    assert(file =~= fence_line + (block + tail));
    // the lines of the file
    assert(fence_line.len() == 4 && fence_line.last() == '\n');
    lemma_lines_concat(fence_line, block + tail, 0);
    lemma_lines_concat(block, tail, 0);
    lemma_lines_concat(fence_line, rest, 0);
    assert(lines(fence_line) =~= seq![fence]) by {
        lemma_line_end(fence_line, 0);
        assert(line_end(fence_line, 0) == 3) by {
            assert(fence_line[0] != '\n' && fence_line[1] != '\n' && fence_line[2] != '\n');
            assert(fence_line[3] == '\n');
            reveal_with_fuel(line_end, 5);
        }
        assert(fence_line.subrange(0, 3) =~= fence);
        assert(lines_from(fence_line, 4) =~= Seq::<Seq<char>>::empty());
    }
    let inner = lines(block);
    let rows = lines(file);
    assert(rows =~= seq![fence] + inner + seq![fence] + lines(rest));
    assert(is_fence(fence)) by {
        assert(fence.subrange(0, fence.len() as int) =~= fence);
    }
    // reading them
    assert forall|k: int| 0 <= k < inner.len() implies rows[1 + k] == #[trigger] inner[k] by {}
    lemma_block_collects(rows, inner, inner.len() as int);
    let closing: int = 1 + inner.len() as int;
    assert(rows[closing] == fence);
    assert(block_state(rows, closing + 1) == (2int, relined(inner, inner.len() as int)));
    lemma_block_closed(rows, closing + 1, rows.len() as int);
    lemma_relined(block, 0);
    assert(block.skip(0) =~= block);
}

impl Frontmatter {
    /// Appends a header to a file: the block that holds the header's
    /// values, between two fences.
    pub fn write_to(block: &str, w: &mut String)
        ensures
            final(w)@ == old(w)@ + framed(block@),
    {
        w.append("---\n");
        w.append(block);
        w.append("---\n");
        assert(w@ =~= old(w)@ + framed(block@));
    }

    /// Takes the header block out of the text of a file: the lines between
    /// the first line that begins with three dashes and the next such line,
    /// or the end where there is none.
    pub fn from_file(text: &str) -> (r: String)
        ensures
            r@ == frontmatter_block(text@),
    {
        let all = split_lines(&chars_of(text));
        let fence = chars_of("---");
        let mut block: Vec<char> = Vec::new();
        let mut seen: usize = 0;
        let mut n: usize = 0;
        while n < all.len()
            invariant
                n <= all@.len(),
                views(all@) == lines(text@),
                fence@ == "---"@,
                seen <= n,
                seen == block_state(lines(text@), n as int).0,
                block@ == block_state(lines(text@), n as int).1,
            decreases all@.len() - n,
        {
            let line = &all[n];
            assert(lines(text@)[n as int] == line@);
            if seen > 1 {
            } else if crate::text::has_prefix(line, &fence) {
                seen = seen + 1;
            } else if seen == 1 {
                extend(&mut block, line);
                block.push('\n');
                assert(block@ =~= block_state(lines(text@), n as int).1 + line@ + seq!['\n']);
            }
            n = n + 1;
        }
        string_of(&block)
    }
}

// ---------------------------------------------------------------------------
// The navigation bar

/// One entry of the navigation bar, with the entries below it.
#[derive(Debug, PartialEq, Eq)]
pub struct NavbarItem {
    pub text: String,
    pub link: String,
    pub items: Option<Vec<NavbarItem>>,
}

impl<'a> From<(&'a str, &'a str)> for NavbarItem {
    /// An entry with the given text and link and without entries below it.
    fn from(value: (&'a str, &'a str)) -> (r: NavbarItem)
        ensures
            r.text@ == value.0@,
            r.link@ == value.1@,
            r.items is None,
    {
        NavbarItem { text: value.0.to_owned(), link: value.1.to_owned(), items: None }
    }
}

impl<'a> vstd::std_specs::convert::FromSpecImpl<(&'a str, &'a str)> for NavbarItem {
    open spec fn obeys_from_spec() -> bool {
        false
    }

    open spec fn from_spec(value: (&'a str, &'a str)) -> NavbarItem {
        arbitrary()
    }
}

} // verus!
