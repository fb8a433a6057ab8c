//! The sidebar, read back from the files that were written: a walk over the
//! output directory that turns each file and each directory into an entry
//! and puts the entries of a directory in the order of their headers.

use vstd::prelude::*;
use crate::error::{Error, ErrorView};
use crate::table::{inserted, lemma_position_of, lemma_same_positions, lookup, position_of, StrMap};
use crate::text::{chars_of, extend, has_prefix, lowercase, slice_of, string_of, unicode_lowercase};
use crate::toc::{
    builder_error_message, lemma_sidebar_view, sidebar_views, Frontmatter, FrontmatterView,
    SidebarItem, SidebarItemView,
};

verus! {

broadcast use vstd::string::group_string_axioms;

// ---------------------------------------------------------------------------
// Order

/// A list in order with one more entry: the entry goes behind every entry
/// that is not after it, so that equal entries keep the order in which they
/// came.
pub open spec fn insert_by_order(sorted: Seq<SidebarItemView>, x: SidebarItemView) -> Seq<
    SidebarItemView,
>
    decreases sorted.len(),
{
    if sorted.len() == 0 {
        seq![x]
    } else if sorted.last().order <= x.order {
        sorted.push(x)
    } else {
        insert_by_order(sorted.drop_last(), x).push(sorted.last())
    }
}

/// The entries of a list by ascending order; entries of one order keep the
/// order in which they came.
pub open spec fn sorted_by_order(items: Seq<SidebarItemView>) -> Seq<SidebarItemView>
    decreases items.len(),
{
    if items.len() == 0 {
        Seq::empty()
    } else {
        insert_by_order(sorted_by_order(items.drop_last()), items.last())
    }
}

/// Whether no entry of a list stands before one of lower order.
pub open spec fn ordered(items: Seq<SidebarItemView>) -> bool {
    forall|i: int, j: int| 0 <= i < j < items.len() ==> items[i].order <= items[j].order
}

/// Inserting in order keeps the order, adds one entry and loses none.
pub proof fn lemma_insert_by_order(sorted: Seq<SidebarItemView>, x: SidebarItemView)
    requires
        ordered(sorted),
    ensures
        ordered(insert_by_order(sorted, x)),
        insert_by_order(sorted, x).len() == sorted.len() + 1,
        insert_by_order(sorted, x).to_multiset() == sorted.to_multiset().insert(x),
    decreases sorted.len(),
{
    broadcast use vstd::seq_lib::group_to_multiset_ensures;

    if sorted.len() == 0 {
        assert(seq![x] =~= Seq::<SidebarItemView>::empty().push(x));
        assert(sorted =~= Seq::<SidebarItemView>::empty());
    } else if sorted.last().order <= x.order {
    } else {
        let head = sorted.drop_last();
        lemma_insert_by_order(head, x);
        let placed = insert_by_order(head, x);
        assert(sorted =~= head.push(sorted.last()));
        assert forall|i: int, j: int| 0 <= i < j < placed.push(sorted.last()).len() implies placed.push(
            sorted.last(),
        )[i].order <= placed.push(sorted.last())[j].order by {
            if j == placed.len() {
                lemma_member_bound(head, x, sorted.last().order, i);
            }
        }
        assert(placed.push(sorted.last()).to_multiset() =~= sorted.to_multiset().insert(x));
    }
}

/// Every entry of a list with one more entry is at most `bound` where the
/// entries of the list and the new entry are.
proof fn lemma_member_bound(sorted: Seq<SidebarItemView>, x: SidebarItemView, bound: u32, i: int)
    requires
        forall|k: int| 0 <= k < sorted.len() ==> sorted[k].order <= bound,
        x.order <= bound,
        0 <= i < insert_by_order(sorted, x).len(),
    ensures
        insert_by_order(sorted, x)[i].order <= bound,
    decreases sorted.len(),
{
    if sorted.len() == 0 {
    } else if sorted.last().order <= x.order {
    } else {
        let head = sorted.drop_last();
        if i < insert_by_order(head, x).len() {
            lemma_member_bound(head, x, bound, i);
        }
    }
}

/// A sorted list is in order and holds exactly the entries that were given.
pub proof fn lemma_sorted_by_order(items: Seq<SidebarItemView>)
    ensures
        ordered(sorted_by_order(items)),
        sorted_by_order(items).len() == items.len(),
        sorted_by_order(items).to_multiset() == items.to_multiset(),
    decreases items.len(),
{
    broadcast use vstd::seq_lib::group_to_multiset_ensures;

    if items.len() == 0 {
        assert(sorted_by_order(items) =~= items);
    } else {
        lemma_sorted_by_order(items.drop_last());
        lemma_insert_by_order(sorted_by_order(items.drop_last()), items.last());
        assert(items =~= items.drop_last().push(items.last()));
    }
}

/// Inserting in order puts the entry right behind the last entry that is
/// not after it.
proof fn lemma_insert_position(sorted: Seq<SidebarItemView>, x: SidebarItemView, p: int)
    requires
        0 <= p <= sorted.len(),
        p > 0 ==> sorted[p - 1].order <= x.order,
        forall|k: int| p <= k < sorted.len() ==> sorted[k].order > x.order,
    ensures
        insert_by_order(sorted, x) == sorted.insert(p, x),
    decreases sorted.len(),
{
    if sorted.len() == 0 {
        assert(seq![x] =~= sorted.insert(p, x));
    } else if p == sorted.len() {
        assert(sorted.push(x) =~= sorted.insert(p, x));
    } else {
        lemma_insert_position(sorted.drop_last(), x, p);
        assert(sorted.drop_last().insert(p, x).push(sorted.last()) =~= sorted.insert(p, x));
    }
}

/// Puts entries in ascending order; entries of one order keep the order in
/// which they came.
pub fn sort_by_order(items: Vec<SidebarItem>) -> (r: Vec<SidebarItem>)
    ensures
        sidebar_views(r@) == sorted_by_order(sidebar_views(items@)),
        ordered(sidebar_views(r@)),
        sidebar_views(r@).to_multiset() == sidebar_views(items@).to_multiset(),
{
    let ghost given = sidebar_views(items@);
    let mut rest = items;
    let mut out: Vec<SidebarItem> = Vec::new();
    let ghost mut done: int = 0;
    assert(given.take(0) =~= Seq::<SidebarItemView>::empty());
    assert(sidebar_views(out@) =~= sorted_by_order(given.take(0)));
    assert(given.skip(0) =~= given);
    while rest.len() > 0
        invariant
            0 <= done <= given.len(),
            sidebar_views(rest@) == given.skip(done),
            sidebar_views(out@) == sorted_by_order(given.take(done)),
        decreases rest.len(),
    {
        let ghost rest_before = sidebar_views(rest@);
        let ghost sorted = sidebar_views(out@);
        proof {
            assert(rest_before.len() == rest@.len());
            assert(given.skip(done).len() == given.len() - done);
            assert(rest_before[0] == given[done]);
        }
        let item = rest.remove(0);
        proof {
            assert(item@ == rest_before[0]);
            assert forall|k: int| 0 <= k < rest@.len() implies sidebar_views(rest@)[k] == given.skip(
                done + 1,
            )[k] by {
                assert(rest@[k]@ == rest_before[k + 1]);
            }
            assert(sidebar_views(rest@) =~= given.skip(done + 1));
            assert(given.take(done + 1).drop_last() =~= given.take(done));
            assert(given.take(done + 1).last() == item@);
            lemma_sorted_by_order(given.take(done));
        }
        let mut p: usize = out.len();
        while p > 0 && out[p - 1].order > item.order
            invariant
                p <= out.len(),
                sorted == sidebar_views(out@),
                forall|k: int| p <= k < sorted.len() ==> sorted[k].order > item.order,
            decreases p,
        {
            proof {
                lemma_sidebar_view(out@[p - 1]);
            }
            p = p - 1;
        }
        proof {
            if p > 0 {
                lemma_sidebar_view(out@[p - 1]);
            }
            lemma_sidebar_view(item);
            assert forall|k: int| p <= k < sorted.len() implies sorted[k].order > item@.order by {}
            lemma_insert_position(sorted, item@, p as int);
        }
        out.insert(p, item);
        proof {
            assert(sidebar_views(out@) =~= sorted.insert(p as int, item@));
            done = done + 1;
        }
    }
    proof {
        assert(given.take(given.len() as int) =~= given);
        lemma_sorted_by_order(given);
    }
    out
}

// ---------------------------------------------------------------------------
// The files

/// What an entry of a directory is.
#[derive(Debug, Clone, Copy, PartialEq, Eq, Structural)]
pub enum FileKind {
    Directory,
    File,
    Other,
}

/// An entry of the output directory as the walk needs it: its name, what it
/// is, the header that was read for it (for a directory, the header of the
/// landing page in it), and for a directory the entries in it.
#[derive(Debug, PartialEq, Eq)]
pub struct DirEntry {
    pub name: String,
    pub kind: FileKind,
    pub header: Result<Frontmatter, Error>,
    pub entries: Vec<DirEntry>,
}

/// A directory entry with its texts as sequences.
pub struct DirEntryView {
    pub name: Seq<char>,
    pub kind: FileKind,
    pub header: Result<FrontmatterView, ErrorView>,
    pub entries: Seq<DirEntryView>,
}

/// The header that was read, or the error of reading it, as a view.
pub open spec fn header_view(header: Result<Frontmatter, Error>) -> Result<
    FrontmatterView,
    ErrorView,
> {
    match header {
        Ok(h) => Ok(h@),
        Err(e) => Err(e@),
    }
}

/// The view of a directory entry and of everything in it.
pub open spec fn dir_entry_view(e: DirEntry) -> DirEntryView
    decreases e,
{
    DirEntryView {
        name: e.name@,
        kind: e.kind,
        header: header_view(e.header),
        entries: Seq::new(
            e.entries@.len(),
            |i: int|
                if 0 <= i < e.entries@.len() {
                    dir_entry_view(e.entries@[i])
                } else {
                    arbitrary()
                },
        ),
    }
}

impl View for DirEntry {
    type V = DirEntryView;

    open spec fn view(&self) -> DirEntryView {
        dir_entry_view(*self)
    }
}

/// The views of a list of directory entries.
pub open spec fn dir_entry_views(entries: Seq<DirEntry>) -> Seq<DirEntryView> {
    Seq::new(entries.len(), |i: int| entries[i]@)
}

/// The view of a directory entry, field by field.
pub proof fn lemma_dir_entry_view(e: DirEntry)
    ensures
        e@.name == e.name@,
        e@.kind == e.kind,
        e@.header == header_view(e.header),
        e@.entries == dir_entry_views(e.entries@),
{
    assert(e@.entries =~= dir_entry_views(e.entries@));
}

// ---------------------------------------------------------------------------
// The walk

/// A base path from the root of the site: with a `/` in front where it had
/// none.
pub open spec fn absolute(base: Seq<char>) -> Seq<char> {
    if base.len() > 0 && base[0] == '/' {
        base
    } else {
        seq!['/'] + base
    }
}

/// A name below a directory: the two with one `/` between them.
pub open spec fn join_path(dir: Seq<char>, name: Seq<char>) -> Seq<char> {
    if dir.len() > 0 && dir.last() == '/' {
        dir + name
    } else {
        dir + seq!['/'] + name
    }
}

/// The position of the first `.` of a name, or its length where it has none.
pub open spec fn first_dot(name: Seq<char>) -> int
    decreases name.len(),
{
    if name.len() == 0 || name[0] == '.' {
        0
    } else {
        1 + first_dot(name.skip(1))
    }
}

/// A file name up to its first `.`: all of it where it has none.
pub open spec fn stem(name: Seq<char>) -> Seq<char> {
    name.take(first_dot(name))
}

/// Whether a name belongs to a landing page, which has no entry of its own.
pub open spec fn is_index(name: Seq<char>) -> bool {
    "index"@.is_prefix_of(name)
}

/// The sidebar entry of one directory entry that lies in the directory
/// `path`.
///
/// A directory takes text and order from the header of its landing page,
/// links to its own path with a `/` behind it, and holds the entries of
/// what is in it by ascending order, shown open. A file takes text and
/// order from its own header and links to its name with the extension
/// replaced by `.html`. Links are as the names are written; they are put in
/// lower case afterwards. An entry that is neither gives the error of an
/// entry without text, and a header that could not be read gives its error.
pub open spec fn entry_item(e: DirEntryView, path: Seq<char>) -> Result<SidebarItemView, ErrorView>
    decreases e, 0int,
{
    match e.kind {
        FileKind::Directory => match e.header {
            Err(err) => Err(err),
            Ok(header) => match walked(e.entries, join_path(path, e.name), e.entries.len() as int) {
                Err(err) => Err(err),
                Ok(items) => Ok(
                    SidebarItemView {
                        text: header.sidebar,
                        link: join_path(path, e.name + seq!['/']),
                        items: Some(sorted_by_order(items)),
                        collapsed: Some(false),
                        order: header.order,
                    },
                ),
            },
        },
        FileKind::File => match e.header {
            Err(err) => Err(err),
            Ok(header) => Ok(
                SidebarItemView {
                    text: header.sidebar,
                    link: join_path(path, stem(e.name) + ".html"@),
                    items: None,
                    collapsed: None,
                    order: header.order,
                },
            ),
        },
        FileKind::Other => Err(ErrorView::Internal(builder_error_message("text"@))),
    }
}

/// The sidebar entries of the first `n` entries of a directory whose base
/// path is `base`, in the order of the directory: landing pages are passed
/// over, and the first error ends the walk.
pub open spec fn walked(entries: Seq<DirEntryView>, base: Seq<char>, n: int) -> Result<
    Seq<SidebarItemView>,
    ErrorView,
>
    decreases entries, n,
{
    if n <= 0 || n > entries.len() {
        Ok(Seq::empty())
    } else {
        match walked(entries, base, n - 1) {
            Err(err) => Err(err),
            Ok(items) => if is_index(entries[n - 1].name) {
                Ok(items)
            } else {
                match entry_item(entries[n - 1], absolute(base)) {
                    Err(err) => Err(err),
                    Ok(item) => Ok(items.push(item)),
                }
            },
        }
    }
}

/// The entries below a directory's entry are in the order of their headers.
pub proof fn lemma_children_in_order(e: DirEntryView, path: Seq<char>)
    requires
        entry_item(e, path) is Ok,
        entry_item(e, path)->Ok_0.items is Some,
    ensures
        ordered(entry_item(e, path)->Ok_0.items->0),
{
    match walked(e.entries, join_path(path, e.name), e.entries.len() as int) {
        Ok(items) => {
            lemma_sorted_by_order(items);
        },
        Err(_) => {},
    }
}

/// The position of the first `.` of a name.
fn first_dot_of(name: &Vec<char>) -> (r: usize)
    ensures
        r == first_dot(name@),
        r <= name@.len(),
{
    let mut i: usize = 0;
    assert(name@.skip(0) =~= name@);
    while i < name.len() && name[i] != '.'
        invariant
            i <= name@.len(),
            first_dot(name@) == i + first_dot(name@.skip(i as int)),
        decreases name@.len() - i,
    {
        assert(name@.skip(i as int).skip(1) =~= name@.skip(i + 1));
        i = i + 1;
    }
    i
}

/// A name below a directory.
fn join_paths(dir: &Vec<char>, name: &Vec<char>) -> (r: Vec<char>)
    ensures
        r@ == join_path(dir@, name@),
{
    let mut r: Vec<char> = slice_of(dir, 0, dir.len());
    assert(r@ =~= dir@);
    if !(dir.len() > 0 && dir[dir.len() - 1] == '/') {
        r.push('/');
        assert(r@ =~= dir@ + seq!['/']);
    }
    extend(&mut r, name);
    r
}

/// A base path from the root of the site.
fn to_absolute(base: &Vec<char>) -> (r: Vec<char>)
    ensures
        r@ == absolute(base@),
{
    if base.len() > 0 && base[0] == '/' {
        let r = slice_of(base, 0, base.len());
        assert(r@ =~= base@);
        r
    } else {
        let mut r: Vec<char> = vec!['/'];
        assert(r@ =~= seq!['/']);
        extend(&mut r, base);
        r
    }
}

/// The sidebar entry of one directory entry.
fn item_of(e: &DirEntry, path: &Vec<char>) -> (r: Result<SidebarItem, Error>)
    ensures
        match r {
            Ok(item) => entry_item(e@, path@) == Ok::<SidebarItemView, ErrorView>(item@),
            Err(err) => entry_item(e@, path@) == Err::<SidebarItemView, ErrorView>(err@),
        },
    decreases e, 0int,
{
    proof {
        lemma_dir_entry_view(*e);
    }
    let mut builder = SidebarItem::builder();
    let name = chars_of(e.name.as_str());
    match e.kind {
        FileKind::Directory => {
            let (text, order): (String, u32) = match &e.header {
                Ok(header) => (header.sidebar.clone(), header.order),
                Err(err) => {
                    return Err(err.clone());
                },
            };
            builder.text(text).order(order);
            let below = join_paths(path, &name);
            let items = match walk_in(&e.entries, &below) {
                Ok(items) => items,
                Err(err) => {
                    return Err(err);
                },
            };
            let children = sort_by_order(items);
            let mut tail = slice_of(&name, 0, name.len());
            assert(tail@ =~= name@);
            tail.push('/');
            assert(tail@ =~= e.name@ + seq!['/']);
            let link = join_paths(path, &tail);
            builder.link(string_of(&link));
            builder.items(Some(children));
            builder.collapsed(Some(false));
        },
        FileKind::File => {
            let (text, order): (String, u32) = match &e.header {
                Ok(header) => (header.sidebar.clone(), header.order),
                Err(err) => {
                    return Err(err.clone());
                },
            };
            builder.text(text).order(order);
            let dot = first_dot_of(&name);
            let mut file = slice_of(&name, 0, dot);
            assert(file@ =~= stem(e.name@));
            extend(&mut file, &chars_of(".html"));
            let link = join_paths(path, &file);
            builder.link(string_of(&link));
        },
        FileKind::Other => {},
    }
    match builder.build() {
        Ok(item) => Ok(item),
        Err(err) => Err(err.into_error()),
    }
}

/// Walks a directory whose base path is already known from the root.
fn walk_in(dir: &Vec<DirEntry>, base: &Vec<char>) -> (r: Result<Vec<SidebarItem>, Error>)
    ensures
        match r {
            Ok(items) => walked(dir_entry_views(dir@), base@, dir@.len() as int) == Ok::<
                Seq<SidebarItemView>,
                ErrorView,
            >(sidebar_views(items@)),
            Err(err) => walked(dir_entry_views(dir@), base@, dir@.len() as int) == Err::<
                Seq<SidebarItemView>,
                ErrorView,
            >(err@),
        },
    decreases dir, dir@.len(),
{
    let ghost entries = dir_entry_views(dir@);
    let path = to_absolute(base);
    let index = chars_of("index");
    let mut result: Vec<SidebarItem> = Vec::new();
    let mut n: usize = 0;
    assert(sidebar_views(result@) =~= Seq::<SidebarItemView>::empty());
    while n < dir.len()
        invariant
            n <= dir@.len(),
            entries == dir_entry_views(dir@),
            path@ == absolute(base@),
            index@ == "index"@,
            walked(entries, base@, n as int) == Ok::<Seq<SidebarItemView>, ErrorView>(
                sidebar_views(result@),
            ),
        decreases dir@.len() - n,
    {
        let e = &dir[n];
        assert(entries[n as int] == e@);
        proof {
            lemma_dir_entry_view(*e);
        }
        if !has_prefix(&chars_of(e.name.as_str()), &index) {
            match item_of(e, &path) {
                Ok(item) => {
                    let ghost before = sidebar_views(result@);
                    result.push(item);
                    assert(sidebar_views(result@) =~= before.push(item@));
                },
                Err(err) => {
                    proof {
                        lemma_walk_stays_failed(entries, base@, n + 1, dir@.len() as int);
                    }
                    return Err(err);
                },
            }
        }
        n = n + 1;
    }
    Ok(result)
}

/// Once the walk has failed, it stays failed with the same error.
proof fn lemma_walk_stays_failed(entries: Seq<DirEntryView>, base: Seq<char>, n: int, m: int)
    requires
        0 <= n <= m <= entries.len(),
        walked(entries, base, n) is Err,
    ensures
        walked(entries, base, m) == walked(entries, base, n),
    decreases m - n,
{
    if n < m {
        lemma_walk_stays_failed(entries, base, n, m - 1);
    }
}

/// Walks a directory and turns what is in it into sidebar entries, in the
/// order of the directory, with links as the names are written. `base` is
/// the path of the directory from the root of the site.
pub fn walk_tree(dir: &Vec<DirEntry>, base: &str) -> (r: Result<Vec<SidebarItem>, Error>)
    ensures
        match r {
            Ok(items) => walked(dir_entry_views(dir@), base@, dir@.len() as int) == Ok::<
                Seq<SidebarItemView>,
                ErrorView,
            >(sidebar_views(items@)),
            Err(err) => walked(dir_entry_views(dir@), base@, dir@.len() as int) == Err::<
                Seq<SidebarItemView>,
                ErrorView,
            >(err@),
        },
{
    walk_in(dir, &chars_of(base))
}

/// A sidebar entry with its link, and the links of everything below it, in
/// lower case.
pub open spec fn lowered(item: SidebarItemView) -> SidebarItemView
    decreases item,
{
    SidebarItemView {
        text: item.text,
        link: unicode_lowercase(item.link),
        items: match item.items {
            Some(below) => Some(
                Seq::new(
                    below.len(),
                    |i: int|
                        if 0 <= i < below.len() {
                            lowered(below[i])
                        } else {
                            arbitrary()
                        },
                ),
            ),
            None => None,
        },
        collapsed: item.collapsed,
        order: item.order,
    }
}

/// Sidebar entries with all their links in lower case.
pub open spec fn lowered_all(items: Seq<SidebarItemView>) -> Seq<SidebarItemView> {
    Seq::new(items.len(), |i: int| lowered(items[i]))
}

/// Puts the link of an entry, and the links of everything below it, in
/// lower case.
fn lower_links(item: &mut SidebarItem)
    ensures
        (*final(item))@ == lowered((*old(item))@),
    decreases *old(item),
{
    proof {
        lemma_sidebar_view(*old(item));
    }
    let link = lowercase(&chars_of(item.link.as_str()));
    item.link = string_of(&link);
    match &mut item.items {
        Some(below) => {
            let ghost before = *below;
            let n: usize = below.len();
            let mut i: usize = 0;
            while i < n
                invariant
                    i <= n,
                    n == below@.len(),
                    n == before@.len(),
                    old(item).items == Some(before),
                    forall|k: int|
                        0 <= k < i ==> (#[trigger] below@[k])@ == lowered(before@[k]@),
                    forall|k: int| i <= k < n ==> #[trigger] below@[k] == before@[k],
                decreases n - i,
            {
                proof {
                    assert(decreases_to!(*old(item) => old(item).items));
                    assert(decreases_to!(old(item).items => old(item).items->0));
                    assert(decreases_to!(old(item).items->0 => before@));
                    assert(decreases_to!(before@ => before@[i as int]));
                }
                lower_links(&mut below[i]);
                i = i + 1;
            }
            assert(sidebar_views(below@) =~= lowered_all(sidebar_views(before@)));
        },
        None => {},
    }
    proof {
        lemma_sidebar_view(*item);
        match old(item).items {
            Some(before) => {
                assert(lowered((*old(item))@).items->0 =~= lowered_all(sidebar_views(before@)));
            },
            None => {},
        }
    }
}

/// Puts the links of sidebar entries, and of everything below them, in
/// lower case.
pub fn lowercase_links(items: Vec<SidebarItem>) -> (r: Vec<SidebarItem>)
    ensures
        sidebar_views(r@) == lowered_all(sidebar_views(items@)),
{
    let mut r = items;
    let n: usize = r.len();
    let mut i: usize = 0;
    while i < n
        invariant
            i <= n,
            n == r@.len(),
            n == items@.len(),
            forall|k: int| 0 <= k < i ==> (#[trigger] r@[k])@ == lowered(items@[k]@),
            forall|k: int| i <= k < n ==> #[trigger] r@[k] == items@[k],
        decreases n - i,
    {
        lower_links(&mut r[i]);
        i = i + 1;
    }
    assert(sidebar_views(r@) =~= lowered_all(sidebar_views(items@)));
    r
}

/// Putting links in lower case keeps the order of the entries.
pub proof fn lemma_lowered_keeps_order(items: Seq<SidebarItemView>)
    requires
        ordered(items),
    ensures
        ordered(lowered_all(items)),
{
    assert forall|i: int, j: int| 0 <= i < j < lowered_all(items).len() implies lowered_all(
        items,
    )[i].order <= lowered_all(items)[j].order by {
        assert(items[i].order <= items[j].order);
    }
}

/// Whether the outcome of a walk is the one that the contract describes:
/// the entries that the walk gives, with their links in lower case, or the
/// error of the walk.
pub open spec fn walk_is(
    r: Result<Vec<SidebarItem>, Error>,
    wanted: Result<Seq<SidebarItemView>, ErrorView>,
) -> bool {
    match r {
        Ok(items) => wanted is Ok && sidebar_views(items@) == lowered_all(wanted->Ok_0),
        Err(err) => wanted == Err::<Seq<SidebarItemView>, ErrorView>(err@),
    }
}

/// Walks a directory and turns what is in it into sidebar entries, in the
/// order of the directory, with links in lower case. `base` is the path of
/// the directory from the root of the site.
pub fn walk(dir: &Vec<DirEntry>, base: &str) -> (r: Result<Vec<SidebarItem>, Error>)
    ensures
        walk_is(r, walked(dir_entry_views(dir@), base@, dir@.len() as int)),
{
    match walk_tree(dir, base) {
        Ok(items) => Ok(lowercase_links(items)),
        Err(err) => Err(err),
    }
}

// ---------------------------------------------------------------------------
// The sidebar of the whole site

/// The sidebar of the site: for the root link of each namespace the entries
/// of that namespace.
pub struct Sidebar {
    groups: StrMap<Vec<SidebarItem>>,
}

impl Sidebar {
    /// The pairs of root link and entries, in the order in which the links
    /// came.
    pub closed spec fn view(&self) -> Seq<(Seq<char>, Seq<SidebarItemView>)> {
        Seq::new(
            self.groups.entries().len(),
            |i: int| (self.groups.entries()[i].0, sidebar_views(self.groups.entries()[i].1@)),
        )
    }

    /// A sidebar without namespaces.
    pub fn new() -> (r: Self)
        ensures
            r@ == Seq::<(Seq<char>, Seq<SidebarItemView>)>::empty(),
    {
        let r = Sidebar { groups: StrMap::new() };
        assert(r@ =~= Seq::<(Seq<char>, Seq<SidebarItemView>)>::empty());
        r
    }

    /// The number of namespaces.
    pub fn len(&self) -> (n: usize)
        ensures
            n == self@.len(),
    {
        self.groups.len()
    }

    /// Puts entries under a root link; entries that stood under the link
    /// before are replaced.
    pub fn insert(&mut self, link: String, items: Vec<SidebarItem>)
        ensures
            final(self)@ == inserted(old(self)@, link@, sidebar_views(items@)),
    {
        proof {
            lemma_same_positions(old(self).groups.entries(), old(self)@, link@);
        }
        self.groups.insert(link, items);
        proof {
            let at = position_of(old(self)@, link@);
            lemma_position_of(old(self)@, link@);
            assert(self.groups.entries() == inserted(old(self).groups.entries(), link@, items));
            if at < old(self)@.len() {
                assert(self@ =~= old(self)@.update(at, (link@, sidebar_views(items@))));
            } else {
                assert(self@ =~= old(self)@.push((link@, sidebar_views(items@))));
            }
        }
    }

    /// The entries under a root link.
    pub fn get(&self, link: &str) -> (r: Option<&Vec<SidebarItem>>)
        ensures
            match r {
                Some(items) => lookup(self@, link@) == Some(sidebar_views(items@)),
                None => lookup(self@, link@) is None,
            },
    {
        proof {
            lemma_same_positions(self.groups.entries(), self@, link@);
            lemma_position_of(self@, link@);
            let at = position_of(self@, link@);
            if at < self@.len() {
                assert(self@[at].1 == sidebar_views(self.groups.entries()[at].1@));
            }
        }
        self.groups.get(link)
    }

    /// The root link at a position.
    pub fn link(&self, i: usize) -> (r: Option<&String>)
        ensures
            match r {
                Some(link) => i < self@.len() && link@ == self@[i as int].0,
                None => i >= self@.len(),
            },
    {
        if i < self.groups.len() {
            Some(self.groups.key(i))
        } else {
            None
        }
    }

    /// The entries at a position.
    pub fn items(&self, i: usize) -> (r: Option<&Vec<SidebarItem>>)
        ensures
            match r {
                Some(items) => i < self@.len() && sidebar_views(items@) == self@[i as int].1,
                None => i >= self@.len(),
            },
    {
        if i < self.groups.len() {
            Some(self.groups.value(i))
        } else {
            None
        }
    }
}

/// Whether a directory of the output root holds no namespace: its name
/// begins with `.` or `_`.
pub open spec fn is_hidden(name: Seq<char>) -> bool {
    name.len() > 0 && (name[0] == '.' || name[0] == '_')
}

/// The root link of a namespace: its directory's name in lower case between
/// two `/`.
pub open spec fn root_link(name: Seq<char>) -> Seq<char> {
    seq!['/'] + unicode_lowercase(name) + seq!['/']
}

/// The root links of the entries of the output root.
pub open spec fn root_links(root: Seq<DirEntryView>) -> Seq<Seq<char>> {
    Seq::new(root.len(), |i: int| root_link(root[i].name))
}

/// The link that is given for the entry at a place: empty where none is.
pub open spec fn link_at(links: Seq<Seq<char>>, i: int) -> Seq<char> {
    if 0 <= i < links.len() {
        links[i]
    } else {
        Seq::empty()
    }
}

/// The sidebar after the first `n` entries of the output root, for given
/// root links. Each directory that is not hidden gives the entries of its
/// walk, by ascending order, under its root link; anything else is passed
/// over, and the first error ends it.
pub open spec fn sidebar_with(root: Seq<DirEntryView>, links: Seq<Seq<char>>, n: int) -> Result<
    Seq<(Seq<char>, Seq<SidebarItemView>)>,
    ErrorView,
>
    decreases n,
{
    if n <= 0 || n > root.len() {
        Ok(Seq::empty())
    } else {
        match sidebar_with(root, links, n - 1) {
            Err(err) => Err(err),
            Ok(groups) => {
                let e = root[n - 1];
                if e.kind == FileKind::Directory && !is_hidden(e.name) {
                    match walked(e.entries, e.name, e.entries.len() as int) {
                        Err(err) => Err(err),
                        Ok(items) => Ok(
                            inserted(groups, link_at(links, n - 1), sorted_by_order(items)),
                        ),
                    }
                } else {
                    Ok(groups)
                }
            },
        }
    }
}

/// Once the sidebar has failed, it stays failed with the same error.
proof fn lemma_sidebar_stays_failed(root: Seq<DirEntryView>, links: Seq<Seq<char>>, n: int, m: int)
    requires
        0 <= n <= m <= root.len(),
        sidebar_with(root, links, n) is Err,
    ensures
        sidebar_with(root, links, m) == sidebar_with(root, links, n),
    decreases m - n,
{
    if n < m {
        lemma_sidebar_stays_failed(root, links, n, m - 1);
    }
}

/// The entries of every namespace of the sidebar are in the order of their
/// headers.
pub proof fn lemma_sidebar_in_order(root: Seq<DirEntryView>, links: Seq<Seq<char>>, n: int)
    requires
        0 <= n <= root.len(),
        sidebar_with(root, links, n) is Ok,
    ensures
        forall|i: int|
            0 <= i < sidebar_with(root, links, n)->Ok_0.len() ==> ordered(
                (#[trigger] sidebar_with(root, links, n)->Ok_0[i]).1,
            ),
    decreases n,
{
    if n > 0 {
        match sidebar_with(root, links, n - 1) {
            Ok(groups) => {
                lemma_sidebar_in_order(root, links, n - 1);
                let e = root[n - 1];
                if e.kind == FileKind::Directory && !is_hidden(e.name) {
                    match walked(e.entries, e.name, e.entries.len() as int) {
                        Ok(items) => {
                            lemma_sorted_by_order(items);
                            lemma_position_of(groups, link_at(links, n - 1));
                        },
                        Err(_) => {},
                    }
                }
            },
            Err(_) => {},
        }
    }
}

/// Whether the outcome is the sidebar or the error that is wanted.
pub open spec fn sidebar_is(
    r: Result<Sidebar, Error>,
    wanted: Result<Seq<(Seq<char>, Seq<SidebarItemView>)>, ErrorView>,
) -> bool {
    match r {
        Ok(sidebar) => wanted == Ok::<Seq<(Seq<char>, Seq<SidebarItemView>)>, ErrorView>(sidebar@),
        Err(err) => wanted == Err::<Seq<(Seq<char>, Seq<SidebarItemView>)>, ErrorView>(err@),
    }
}

/// Builds the sidebar of the site from what lies in the output root, for
/// given root links, with the links of the entries as the names are
/// written. An entry for which no link is given has the empty link.
pub fn sidebar_tree(doc_dir: &Vec<DirEntry>, links: &Vec<String>) -> (r: Result<Sidebar, Error>)
    ensures
        sidebar_is(
            r,
            sidebar_with(
                dir_entry_views(doc_dir@),
                crate::text::string_views(links@),
                doc_dir@.len() as int,
            ),
        ),
{
    let ghost root = dir_entry_views(doc_dir@);
    let ghost given = crate::text::string_views(links@);
    let mut sidebar = Sidebar::new();
    let mut n: usize = 0;
    while n < doc_dir.len()
        invariant
            n <= doc_dir@.len(),
            root == dir_entry_views(doc_dir@),
            given == crate::text::string_views(links@),
            sidebar_with(root, given, n as int) == Ok::<
                Seq<(Seq<char>, Seq<SidebarItemView>)>,
                ErrorView,
            >(sidebar@),
        decreases doc_dir@.len() - n,
    {
        let e = &doc_dir[n];
        assert(root[n as int] == e@);
        proof {
            lemma_dir_entry_view(*e);
        }
        let name = chars_of(e.name.as_str());
        let hidden: bool = name.len() > 0 && (name[0] == '.' || name[0] == '_');
        if e.kind == FileKind::Directory && !hidden {
            match walk_tree(&e.entries, e.name.as_str()) {
                Ok(items) => {
                    let sorted = sort_by_order(items);
                    let link: String = if n < links.len() {
                        links[n].clone()
                    } else {
                        String::new()
                    };
                    assert(link@ == link_at(given, n as int));
                    sidebar.insert(link, sorted);
                },
                Err(err) => {
                    proof {
                        lemma_sidebar_stays_failed(root, given, n + 1, doc_dir@.len() as int);
                    }
                    return Err(err);
                },
            }
        }
        n = n + 1;
    }
    Ok(sidebar)
}

/// Groups of sidebar entries with all their links in lower case.
pub open spec fn lowered_groups(groups: Seq<(Seq<char>, Seq<SidebarItemView>)>) -> Seq<
    (Seq<char>, Seq<SidebarItemView>),
> {
    Seq::new(groups.len(), |i: int| (groups[i].0, lowered_all(groups[i].1)))
}

impl Sidebar {
    /// Puts the links of all entries in lower case.
    pub fn lowercase_links(self) -> (r: Sidebar)
        ensures
            r@ == lowered_groups(self@),
    {
        let ghost given = self@;
        let mut pairs = self.groups.into_entries();
        let mut lowered_map: StrMap<Vec<SidebarItem>> = StrMap::new();
        let ghost mut done: int = 0;
        while pairs.len() > 0
            invariant
                0 <= done <= given.len(),
                pairs@.len() == given.len() - done,
                forall|i: int|
                    0 <= i < pairs@.len() ==> (#[trigger] pairs@[i]).0@ == given[done + i].0
                        && sidebar_views(pairs@[i].1@) == given[done + i].1,
                lowered_map.entries().len() == done,
                forall|i: int|
                    0 <= i < done ==> (#[trigger] lowered_map.entries()[i]).0 == given[i].0
                        && sidebar_views(lowered_map.entries()[i].1@) == lowered_all(given[i].1),
            decreases pairs@.len(),
        {
            let pair = pairs.remove(0);
            lowered_map.push(pair.0, lowercase_links(pair.1));
            proof {
                done = done + 1;
            }
        }
        let r = Sidebar { groups: lowered_map };
        assert(r@ =~= lowered_groups(given));
        r
    }
}

/// Whether the outcome is the sidebar that is wanted, with all links in
/// lower case, or the error that is wanted.
pub open spec fn lowered_sidebar_is(
    r: Result<Sidebar, Error>,
    wanted: Result<Seq<(Seq<char>, Seq<SidebarItemView>)>, ErrorView>,
) -> bool {
    match r {
        Ok(sidebar) => wanted is Ok && sidebar@ == lowered_groups(wanted->Ok_0),
        Err(err) => wanted == Err::<Seq<(Seq<char>, Seq<SidebarItemView>)>, ErrorView>(err@),
    }
}

/// Builds the sidebar of the site from what lies in the output root, each
/// namespace under its root link and every link in lower case.
pub fn generate_doc_sidebar(doc_dir: &Vec<DirEntry>) -> (r: Result<Sidebar, Error>)
    ensures
        lowered_sidebar_is(
            r,
            sidebar_with(
                dir_entry_views(doc_dir@),
                root_links(dir_entry_views(doc_dir@)),
                doc_dir@.len() as int,
            ),
        ),
{
    let mut links: Vec<String> = Vec::new();
    let mut i: usize = 0;
    while i < doc_dir.len()
        invariant
            i <= doc_dir@.len(),
            links@.len() == i,
            forall|k: int| 0 <= k < i ==> (#[trigger] links@[k])@ == root_link(doc_dir@[k]@.name),
        decreases doc_dir@.len() - i,
    {
        proof {
            lemma_dir_entry_view(doc_dir@[i as int]);
        }
        let mut link: Vec<char> = vec!['/'];
        assert(link@ =~= seq!['/']);
        extend(&mut link, &lowercase(&chars_of(doc_dir[i].name.as_str())));
        link.push('/');
        assert(link@ =~= root_link(doc_dir@[i as int]@.name));
        links.push(string_of(&link));
        i = i + 1;
    }
    assert(crate::text::string_views(links@) =~= root_links(dir_entry_views(doc_dir@)));
    match sidebar_tree(doc_dir, &links) {
        Ok(sidebar) => Ok(sidebar.lowercase_links()),
        Err(err) => Err(err),
    }
}

} // verus!
