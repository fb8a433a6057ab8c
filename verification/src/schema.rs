//! The schema block at the end of a document: where it is split off, how its
//! lines are read, and the table that collects the blocks of all documents.

use vstd::prelude::*;
use crate::error::{Error, ErrorView};
use crate::formatter::{AstNode, NodeValue};
use crate::toc::parse::{below_output_root, strip_output_root};
use crate::table::{inserted, lemma_position_of, lemma_same_positions, lookup, position_of, StrMap};
use crate::text::{
    chars_of, clone_strings, lines, slice_of, split_lines, string_of, string_views, trim,
    trim_chars, views,
};

verus! {

// ---------------------------------------------------------------------------
// Splitting the block off

/// Whether a line starts at position `i`.
pub open spec fn at_line_start(s: Seq<char>, i: int) -> bool {
    i == 0 || (0 < i <= s.len() && s[i - 1] == '\n')
}

/// Whether a line ends at position `j`: the text ends there, or a line feed
/// stands there, or a carriage return followed by one.
pub open spec fn ends_line(s: Seq<char>, j: int) -> bool {
    j == s.len() || (0 <= j < s.len() && (s[j] == '\n' || (s[j] == '\r' && j + 1 < s.len() && s[j
        + 1] == '\n')))
}

/// Whether the line that starts at `i` is a delimiter: three dashes and
/// nothing else.
pub open spec fn delimiter_at(s: Seq<char>, i: int) -> bool {
    &&& 0 <= i
    &&& i + 3 <= s.len()
    &&& at_line_start(s, i)
    &&& s[i] == '-'
    &&& s[i + 1] == '-'
    &&& s[i + 2] == '-'
    &&& ends_line(s, i + 3)
}

/// The start of the last delimiter line that starts before position `n`, or
/// -1 where there is none.
pub open spec fn last_delimiter(s: Seq<char>, n: int) -> int
    decreases n,
{
    if n <= 0 {
        -1
    } else if delimiter_at(s, n - 1) {
        n - 1
    } else {
        last_delimiter(s, n - 1)
    }
}

/// Where the body ends when the delimiter line starts at `i`: before the
/// line ending that precedes the delimiter.
pub open spec fn body_end(s: Seq<char>, i: int) -> int {
    if i <= 0 {
        0
    } else if i >= 2 && s[i - 2] == '\r' {
        i - 2
    } else {
        i - 1
    }
}

/// Where the schema block starts when the delimiter line starts at `i`:
/// after the line ending of the delimiter.
pub open spec fn block_start(s: Seq<char>, i: int) -> int {
    if i + 3 >= s.len() {
        s.len() as int
    } else if s[i + 3] == '\n' {
        i + 4
    } else {
        i + 5
    }
}

/// The body of a document: what stands before its last delimiter line, or
/// all of it where it has none.
pub open spec fn body_of(s: Seq<char>) -> Seq<char> {
    let i = last_delimiter(s, s.len() as int);
    if i < 0 {
        s
    } else {
        s.subrange(0, body_end(s, i))
    }
}

/// The schema block of a document: what stands after its last delimiter
/// line, if it has one.
pub open spec fn block_of(s: Seq<char>) -> Option<Seq<char>> {
    let i = last_delimiter(s, s.len() as int);
    if i < 0 {
        None
    } else {
        Some(s.subrange(block_start(s, i), s.len() as int))
    }
}

/// The last delimiter is a delimiter, and none follows it.
pub proof fn lemma_last_delimiter(s: Seq<char>, n: int)
    requires
        0 <= n,
    ensures
        -1 <= last_delimiter(s, n) < n || (n == 0 && last_delimiter(s, n) == -1),
        last_delimiter(s, n) >= 0 ==> delimiter_at(s, last_delimiter(s, n)),
        forall|k: int| last_delimiter(s, n) < k < n ==> !delimiter_at(s, k),
    decreases n,
{
    if n > 0 && !delimiter_at(s, n - 1) {
        lemma_last_delimiter(s, n - 1);
    }
}

/// Whether the line that starts at a position is a delimiter.
fn is_delimiter_at(v: &Vec<char>, i: usize) -> (r: bool)
    requires
        i < v.len(),
    ensures
        r == delimiter_at(v@, i as int),
{
    let n: usize = v.len();
    if n - i < 3 {
        return false;
    }
    if i > 0 && v[i - 1] != '\n' {
        return false;
    }
    if v[i] != '-' || v[i + 1] != '-' || v[i + 2] != '-' {
        return false;
    }
    if n - i == 3 {
        return true;
    }
    if v[i + 3] == '\n' {
        return true;
    }
    v[i + 3] == '\r' && n - i > 4 && v[i + 4] == '\n'
}

/// Splits a document at its last delimiter line into body and schema block.
pub fn split_document(text: &str) -> (r: (String, Option<String>))
    ensures
        r.0@ == body_of(text@),
        match r.1 {
            Some(block) => block_of(text@) == Some(block@),
            None => block_of(text@) is None,
        },
{
    let v = chars_of(text);
    let n: usize = v.len();
    let mut found: Option<usize> = None;
    let mut k: usize = 0;
    while k < n
        invariant
            k <= n,
            n == v.len(),
            match found {
                Some(i) => i == last_delimiter(v@, k as int),
                None => last_delimiter(v@, k as int) == -1,
            },
        decreases n - k,
    {
        if is_delimiter_at(&v, k) {
            found = Some(k);
        }
        k = k + 1;
    }
    match found {
        None => (text.to_owned(), None),
        Some(i) => {
            proof {
                lemma_last_delimiter(v@, n as int);
            }
            let end: usize = if i == 0 {
                0
            } else if i >= 2 && v[i - 2] == '\r' {
                i - 2
            } else {
                i - 1
            };
            let start: usize = if n - i == 3 {
                n
            } else if v[i + 3] == '\n' {
                i + 4
            } else {
                i + 5
            };
            let body = slice_of(&v, 0, end);
            let block = slice_of(&v, start, n);
            (string_of(&body), Some(string_of(&block)))
        },
    }
}

// ---------------------------------------------------------------------------
// Reading the block

/// Whether a line holds an anchor tag: `<a `, and somewhere after it `>`.
pub open spec fn is_anchor_line(line: Seq<char>) -> bool {
    exists|i: int, j: int|
        0 <= i && i + 3 <= j < line.len() && #[trigger] opens_anchor(line, i) && #[trigger] line[j]
            == '>'
}

/// Whether `<a ` stands at position `i` of a line.
pub open spec fn opens_anchor(line: Seq<char>, i: int) -> bool {
    0 <= i && i + 3 <= line.len() && line[i] == '<' && line[i + 1] == 'a' && line[i + 2] == ' '
}

/// A line without the pairs of `#` at its start.
pub open spec fn without_hashes(line: Seq<char>) -> Seq<char>
    decreases line.len(),
{
    if line.len() >= 2 && line[0] == '#' && line[1] == '#' {
        without_hashes(line.skip(2))
    } else {
        line
    }
}

/// The key that a line opens: what follows its `#` pairs, without the white
/// space around it.
pub open spec fn section_key(line: Seq<char>) -> Seq<char> {
    trim(without_hashes(line))
}

/// Whether a line opens a section.
pub open spec fn opens_section(line: Seq<char>) -> bool {
    line.len() >= 2 && line[0] == '#' && line[1] == '#'
}

/// What the reader has seen: the sections so far, and the key that waits
/// for its line (empty where none waits).
pub struct SchemaState {
    pub sections: Seq<(Seq<char>, Seq<Seq<char>>)>,
    pub open: Seq<char>,
}

/// The state after one more line. An empty line and a line with an anchor
/// tag change nothing. A line that opens a section starts it empty, also
/// where it was there before, and makes its key wait. Any other line is the
/// one line of the waiting key, which then waits no more; with no key
/// waiting the line is dropped.
pub open spec fn schema_step(st: SchemaState, line: Seq<char>) -> SchemaState {
    if line.len() == 0 || is_anchor_line(line) {
        st
    } else if opens_section(line) {
        SchemaState {
            sections: inserted(st.sections, section_key(line), Seq::empty()),
            open: section_key(line),
        }
    } else if st.open.len() > 0 {
        SchemaState { sections: inserted(st.sections, st.open, seq![line]), open: Seq::empty() }
    } else {
        st
    }
}

/// The state after the first `n` lines.
pub open spec fn schema_state(all: Seq<Seq<char>>, n: int) -> SchemaState
    decreases n,
{
    if n <= 0 {
        SchemaState { sections: Seq::empty(), open: Seq::empty() }
    } else {
        schema_step(schema_state(all, n - 1), all[n - 1])
    }
}

/// The sections that hold a line, in their order.
pub open spec fn filled(sections: Seq<(Seq<char>, Seq<Seq<char>>)>) -> Seq<
    (Seq<char>, Seq<Seq<char>>),
>
    decreases sections.len(),
{
    if sections.len() == 0 {
        Seq::empty()
    } else if sections.last().1.len() > 0 {
        filled(sections.drop_last()).push(sections.last())
    } else {
        filled(sections.drop_last())
    }
}

/// The schema that a block of text holds: its sections read line by line,
/// those without a line dropped.
pub open spec fn schema_of(block: Seq<char>) -> Seq<(Seq<char>, Seq<Seq<char>>)> {
    filled(schema_state(lines(block), lines(block).len() as int).sections)
}

/// Whether every section holds at most one line.
pub open spec fn at_most_one_line(sections: Seq<(Seq<char>, Seq<Seq<char>>)>) -> bool {
    forall|i: int| 0 <= i < sections.len() ==> (#[trigger] sections[i]).1.len() <= 1
}

/// While a block is read, no section holds more than one line.
proof fn lemma_state_holds_one_line(all: Seq<Seq<char>>, n: int)
    requires
        0 <= n <= all.len(),
    ensures
        at_most_one_line(schema_state(all, n).sections),
    decreases n,
{
    if n > 0 {
        lemma_state_holds_one_line(all, n - 1);
        let before = schema_state(all, n - 1);
        let line = all[n - 1];
        if line.len() == 0 || is_anchor_line(line) {
        } else if opens_section(line) {
            lemma_position_of(before.sections, section_key(line));
        } else if before.open.len() > 0 {
            lemma_position_of(before.sections, before.open);
        }
    }
}

/// Of sections that hold at most one line, those that hold a line hold one.
proof fn lemma_filled_holds_one_line(sections: Seq<(Seq<char>, Seq<Seq<char>>)>)
    requires
        at_most_one_line(sections),
    ensures
        forall|i: int| 0 <= i < filled(sections).len() ==> (#[trigger] filled(sections)[i]).1.len() == 1,
    decreases sections.len(),
{
    if sections.len() > 0 {
        assert forall|i: int| 0 <= i < sections.drop_last().len() implies (
        #[trigger] sections.drop_last()[i]).1.len() <= 1 by {
            assert(sections.drop_last()[i] == sections[i]);
        }
        lemma_filled_holds_one_line(sections.drop_last());
        assert(sections.last() == sections[sections.len() - 1]);
        let head = filled(sections.drop_last());
        assert forall|i: int| 0 <= i < filled(sections).len() implies (#[trigger] filled(
            sections,
        )[i]).1.len() == 1 by {
            if i < head.len() {
                assert(filled(sections)[i] == head[i]);
            } else {
                assert(filled(sections)[i] == sections.last());
            }
        }
    }
}

/// While a block is read, no key stands twice.
proof fn lemma_state_keys_distinct(all: Seq<Seq<char>>, n: int)
    requires
        0 <= n <= all.len(),
    ensures
        crate::table::distinct_keys(schema_state(all, n).sections),
    decreases n,
{
    if n > 0 {
        lemma_state_keys_distinct(all, n - 1);
        let before = schema_state(all, n - 1);
        let line = all[n - 1];
        if line.len() == 0 || is_anchor_line(line) {
        } else if opens_section(line) {
            crate::table::lemma_inserted(before.sections, section_key(line), Seq::<Seq<char>>::empty());
        } else if before.open.len() > 0 {
            crate::table::lemma_inserted(before.sections, before.open, seq![line]);
        }
    }
}

/// Every section that holds a line stood among the sections, and sections
/// that hold a line keep their order.
proof fn lemma_filled_from(sections: Seq<(Seq<char>, Seq<Seq<char>>)>, i: int) -> (k: int)
    requires
        0 <= i < filled(sections).len(),
    ensures
        0 <= k < sections.len(),
        sections[k] == filled(sections)[i],
        forall|j: int|
            i < j < filled(sections).len() ==> exists|m: int|
                k < m < sections.len() && sections[m] == #[trigger] filled(sections)[j],
    decreases sections.len(),
{
    let head = sections.drop_last();
    let last = sections.len() - 1;
    if sections.last().1.len() > 0 {
        if i == filled(head).len() {
            assert(filled(sections)[i] == sections[last]);
            last
        } else {
            assert(filled(sections)[i] == filled(head)[i]);
            let k = lemma_filled_from(head, i);
            assert(head[k] == sections[k]);
            assert forall|j: int| i < j < filled(sections).len() implies exists|m: int|
                k < m < sections.len() && sections[m] == #[trigger] filled(sections)[j] by {
                if j == filled(head).len() {
                    assert(sections[last] == filled(sections)[j]);
                } else {
                    assert(filled(sections)[j] == filled(head)[j]);
                    let m = choose|m: int| k < m < head.len() && head[m] == filled(head)[j];
                    assert(sections[m] == head[m]);
                }
            }
            k
        }
    } else {
        let k = lemma_filled_from(head, i);
        assert(head[k] == sections[k]);
        assert forall|j: int| i < j < filled(sections).len() implies exists|m: int|
            k < m < sections.len() && sections[m] == #[trigger] filled(sections)[j] by {
            let m = choose|m: int| k < m < head.len() && head[m] == filled(head)[j];
            assert(sections[m] == head[m]);
        }
        k
    }
}

/// No key stands twice in a schema, whatever the block.
pub proof fn lemma_schema_keys_distinct(block: Seq<char>)
    ensures
        crate::table::distinct_keys(schema_of(block)),
{
    let rows = lines(block);
    let sections = schema_state(rows, rows.len() as int).sections;
    lemma_state_keys_distinct(rows, rows.len() as int);
    assert forall|i: int, j: int| 0 <= i < j < filled(sections).len() implies (#[trigger] filled(
        sections,
    )[i]).0 != (#[trigger] filled(sections)[j]).0 by {
        let k = lemma_filled_from(sections, i);
        let m = choose|m: int| k < m < sections.len() && sections[m] == filled(sections)[j];
        assert(sections[k].0 != sections[m].0);
    }
}

/// Every section of a schema holds exactly one line, whatever the block.
pub proof fn lemma_sections_hold_one_line(block: Seq<char>)
    ensures
        forall|i: int|
            0 <= i < schema_of(block).len() ==> (#[trigger] schema_of(block)[i]).1.len() == 1,
{
    let rows = lines(block);
    lemma_state_holds_one_line(rows, rows.len() as int);
    lemma_filled_holds_one_line(schema_state(rows, rows.len() as int).sections);
}

/// The sections of one document: each key with the lines that it holds.
pub struct Schema {
    sections: StrMap<Vec<String>>,
}

impl Schema {
    /// The pairs of key and lines, in the order in which the keys came.
    pub closed spec fn view(&self) -> Seq<(Seq<char>, Seq<Seq<char>>)> {
        Seq::new(
            self.sections.entries().len(),
            |i: int| (self.sections.entries()[i].0, string_views(self.sections.entries()[i].1@)),
        )
    }

    /// A schema without sections.
    pub fn new() -> (r: Self)
        ensures
            r@ == Seq::<(Seq<char>, Seq<Seq<char>>)>::empty(),
    {
        let r = Schema { sections: StrMap::new() };
        assert(r@ =~= Seq::<(Seq<char>, Seq<Seq<char>>)>::empty());
        r
    }

    /// The number of sections.
    pub fn len(&self) -> (n: usize)
        ensures
            n == self@.len(),
    {
        self.sections.len()
    }

    /// Puts lines under a key; lines that stood under the key before are
    /// replaced.
    pub fn insert(&mut self, key: String, values: Vec<String>)
        ensures
            final(self)@ == inserted(old(self)@, key@, string_views(values@)),
    {
        proof {
            lemma_same_positions(old(self).sections.entries(), old(self)@, key@);
        }
        self.sections.insert(key, values);
        proof {
            let at = position_of(old(self)@, key@);
            lemma_position_of(old(self)@, key@);
            assert(self.sections.entries() == inserted(old(self).sections.entries(), key@, values));
            if at < old(self)@.len() {
                assert(self@ =~= old(self)@.update(at, (key@, string_views(values@))));
            } else {
                assert(self@ =~= old(self)@.push((key@, string_views(values@))));
            }
        }
    }

    /// Adds a section at the end.
    pub(crate) fn push(&mut self, key: String, values: Vec<String>)
        ensures
            final(self)@ == old(self)@.push((key@, string_views(values@))),
    {
        self.sections.push(key, values);
        assert(self@ =~= old(self)@.push((key@, string_views(values@))));
    }

    /// The lines under a key.
    pub fn get(&self, key: &str) -> (r: Option<&Vec<String>>)
        ensures
            match r {
                Some(values) => lookup(self@, key@) == Some(string_views(values@)),
                None => lookup(self@, key@) is None,
            },
    {
        proof {
            lemma_same_positions(self.sections.entries(), self@, key@);
            lemma_position_of(self@, key@);
            let at = position_of(self@, key@);
            if at < self@.len() {
                assert(self@[at].1 == string_views(self.sections.entries()[at].1@));
            }
        }
        self.sections.get(key)
    }

    /// The key at a position.
    pub fn key(&self, i: usize) -> (r: Option<&String>)
        ensures
            match r {
                Some(key) => i < self@.len() && key@ == self@[i as int].0,
                None => i >= self@.len(),
            },
    {
        if i < self.sections.len() {
            Some(self.sections.key(i))
        } else {
            None
        }
    }

    /// The lines at a position.
    pub fn values(&self, i: usize) -> (r: Option<&Vec<String>>)
        ensures
            match r {
                Some(values) => i < self@.len() && string_views(values@) == self@[i as int].1,
                None => i >= self@.len(),
            },
    {
        if i < self.sections.len() {
            Some(self.sections.value(i))
        } else {
            None
        }
    }
}

/// Whether a line holds an anchor tag.
fn has_anchor(line: &Vec<char>) -> (r: bool)
    ensures
        r == is_anchor_line(line@),
{
    let n: usize = line.len();
    let mut i: usize = 0;
    while i < n && !(n - i >= 3 && line[i] == '<' && line[i + 1] == 'a' && line[i + 2] == ' ')
        invariant
            i <= n,
            n == line.len(),
            forall|k: int| 0 <= k < i ==> !opens_anchor(line@, k),
        decreases n - i,
    {
        i = i + 1;
    }
    if i == n {
        return false;
    }
    assert(opens_anchor(line@, i as int));
    let mut j: usize = i + 3;
    while j < n
        invariant
            i + 3 <= j <= n,
            n == line.len(),
            opens_anchor(line@, i as int),
            forall|k: int| i + 3 <= k < j ==> line@[k] != '>',
            forall|k: int| 0 <= k < i ==> !opens_anchor(line@, k),
        decreases n - j,
    {
        if line[j] == '>' {
            return true;
        }
        j = j + 1;
    }
    false
}

/// The key that a line opens.
fn key_of(line: &Vec<char>) -> (r: Vec<char>)
    ensures
        r@ == section_key(line@),
{
    let n: usize = line.len();
    let mut i: usize = 0;
    assert(line@.skip(0) =~= line@);
    while n - i >= 2 && line[i] == '#' && line[i + 1] == '#'
        invariant
            i <= n,
            n == line.len(),
            without_hashes(line@) == without_hashes(line@.skip(i as int)),
        decreases n - i,
    {
        assert(line@.skip(i as int).skip(2) =~= line@.skip(i + 2));
        i = i + 2;
    }
    let rest = slice_of(line, i, n);
    assert(rest@ =~= line@.skip(i as int));
    trim_chars(&rest)
}

/// Reads the schema that a block of text holds.
///
/// The block is read line by line. A line that begins with `##` opens the
/// section named by the rest of the line; the next line that is neither
/// empty nor holds an anchor tag is the one line of that section. A section
/// that got no line is not in the schema.
pub fn parse_schema(text: &str) -> (r: Schema)
    ensures
        r@ == schema_of(text@),
{
    let all = split_lines(&chars_of(text));
    let ghost rows = lines(text@);
    let mut raw = Schema::new();
    let mut open: Vec<char> = Vec::new();
    let mut n: usize = 0;
    while n < all.len()
        invariant
            n <= all.len(),
            rows == views(all@),
            open@ == schema_state(rows, n as int).open,
            raw@ == schema_state(rows, n as int).sections,
        decreases all.len() - n,
    {
        let line = &all[n];
        assert(rows[n as int] == line@);
        if line.len() == 0 || has_anchor(line) {
        } else if line.len() >= 2 && line[0] == '#' && line[1] == '#' {
            let key = key_of(line);
            let none: Vec<String> = Vec::new();
            assert(string_views(none@) =~= Seq::<Seq<char>>::empty());
            raw.insert(string_of(&key), none);
            open = key;
        } else if open.len() > 0 {
            let mut one: Vec<String> = Vec::new();
            one.push(string_of(line));
            assert(string_views(one@) =~= seq![line@]);
            raw.insert(string_of(&open), one);
            open = Vec::new();
        }
        n = n + 1;
    }
    let mut schema = Schema::new();
    let mut i: usize = 0;
    assert(raw@.take(0) =~= Seq::<(Seq<char>, Seq<Seq<char>>)>::empty());
    while i < raw.len()
        invariant
            i <= raw@.len(),
            schema@ == filled(raw@.take(i as int)),
        decreases raw@.len() - i,
    {
        proof {
            assert(raw@.take(i + 1).drop_last() =~= raw@.take(i as int));
            assert(raw@.take(i + 1).last() == raw@[i as int]);
        }
        match (raw.key(i), raw.values(i)) {
            (Some(key), Some(values)) => {
                if values.len() > 0 {
                    schema.push(key.clone(), clone_strings(values));
                }
            },
            _ => {},
        }
        i = i + 1;
    }
    assert(raw@.take(raw@.len() as int) =~= raw@);
    schema
}

// ---------------------------------------------------------------------------
// The table of all documents

/// A schema with its texts as sequences.
pub type SchemaView = Seq<(Seq<char>, Seq<Seq<char>>)>;

/// The schemas of the documents of a run, each under the path that its
/// document was written to.
pub struct SchemaTable {
    documents: StrMap<Schema>,
}

impl SchemaTable {
    /// The pairs of path and schema, in the order in which the paths came.
    pub closed spec fn view(&self) -> Seq<(Seq<char>, SchemaView)> {
        Seq::new(
            self.documents.entries().len(),
            |i: int| (self.documents.entries()[i].0, self.documents.entries()[i].1@),
        )
    }

    /// A table without documents.
    pub fn new() -> (r: Self)
        ensures
            r@ == Seq::<(Seq<char>, SchemaView)>::empty(),
    {
        let r = SchemaTable { documents: StrMap::new() };
        assert(r@ =~= Seq::<(Seq<char>, SchemaView)>::empty());
        r
    }

    /// The number of documents.
    pub fn len(&self) -> (n: usize)
        ensures
            n == self@.len(),
    {
        self.documents.len()
    }

    /// Puts a schema under a path; a schema that stood under the path before
    /// is replaced.
    pub fn insert(&mut self, path: String, schema: Schema)
        ensures
            final(self)@ == inserted(old(self)@, path@, schema@),
    {
        proof {
            lemma_same_positions(old(self).documents.entries(), old(self)@, path@);
        }
        self.documents.insert(path, schema);
        proof {
            let at = position_of(old(self)@, path@);
            lemma_position_of(old(self)@, path@);
            assert(self.documents.entries() == inserted(
                old(self).documents.entries(),
                path@,
                schema,
            ));
            if at < old(self)@.len() {
                assert(self@ =~= old(self)@.update(at, (path@, schema@)));
            } else {
                assert(self@ =~= old(self)@.push((path@, schema@)));
            }
        }
    }

    /// The schema under a path.
    pub fn get(&self, path: &str) -> (r: Option<&Schema>)
        ensures
            match r {
                Some(schema) => lookup(self@, path@) == Some(schema@),
                None => lookup(self@, path@) is None,
            },
    {
        proof {
            lemma_same_positions(self.documents.entries(), self@, path@);
            lemma_position_of(self@, path@);
            let at = position_of(self@, path@);
            if at < self@.len() {
                assert(self@[at].1 == self.documents.entries()[at].1@);
            }
        }
        self.documents.get(path)
    }

    /// The path at a position.
    pub fn path(&self, i: usize) -> (r: Option<&String>)
        ensures
            match r {
                Some(path) => i < self@.len() && path@ == self@[i as int].0,
                None => i >= self@.len(),
            },
    {
        if i < self.documents.len() {
            Some(self.documents.key(i))
        } else {
            None
        }
    }

    /// The schema at a position.
    pub fn schema(&self, i: usize) -> (r: Option<&Schema>)
        ensures
            match r {
                Some(schema) => i < self@.len() && schema@ == self@[i as int].1,
                None => i >= self@.len(),
            },
    {
        if i < self.documents.len() {
            Some(self.documents.value(i))
        } else {
            None
        }
    }
}

/// The key under which the schema of a document is filed: the path of its
/// file below the output directory.
pub open spec fn schema_key_of(path: Seq<char>) -> Seq<char> {
    below_output_root(path)
}

/// The key under which the schema of a document is filed, from the path
/// that the document is written to.
pub fn schema_key(path: &str) -> (r: String)
    ensures
        r@ == schema_key_of(path@),
{
    strip_output_root(path)
}

/// Takes the schema block off a document and files it under the given key.
/// A document without a delimiter line comes back whole, and the table
/// stays as it was.
pub fn filter_schema(text: &str, path: &str, schemas: &mut SchemaTable) -> (r: String)
    ensures
        r@ == body_of(text@),
        final(schemas)@ == match block_of(text@) {
            Some(block) => inserted(old(schemas)@, path@, schema_of(block)),
            None => old(schemas)@,
        },
{
    let (body, block) = split_document(text);
    match block {
        Some(block) => {
            let schema = parse_schema(block.as_str());
            schemas.insert(path.to_owned(), schema);
        },
        None => {},
    }
    body
}

// ---------------------------------------------------------------------------
// The report over all documents

/// The lines of one section of one document, with the document's path.
#[derive(Debug, PartialEq, Eq)]
pub struct SchemaEntry {
    pub content: Vec<String>,
    pub link: String,
}

/// The keys of one document that the report does not use.
#[derive(Debug, PartialEq, Eq)]
pub struct UnusedKeys {
    pub link: String,
    pub keys: Vec<String>,
}

/// What a run reports of its schemas: the two sections that the site's
/// landing page shows, gathered over all documents, and for each document
/// the keys that are left over.
#[derive(Debug, PartialEq, Eq)]
pub struct SchemaReport {
    pub introductions: Vec<SchemaEntry>,
    pub links: Vec<SchemaEntry>,
    pub unused: Vec<UnusedKeys>,
}

/// The key of the section that introduces the landing page.
pub const INTRODUCTION_KEY: &'static str = "首页介绍";

/// The key of the section that holds the landing page's links.
pub const LINKS_KEY: &'static str = "首页链接";

/// The key of the section that introduces the landing page.
pub open spec fn introduction_key() -> Seq<char> {
    INTRODUCTION_KEY@
}

/// The key of the section that holds the landing page's links.
pub open spec fn links_key() -> Seq<char> {
    LINKS_KEY@
}

/// The section `key` of every document that has it, in the order of the
/// documents: its lines and the document's path.
pub open spec fn gathered(table: Seq<(Seq<char>, SchemaView)>, key: Seq<char>) -> Seq<
    (Seq<Seq<char>>, Seq<char>),
>
    decreases table.len(),
{
    if table.len() == 0 {
        Seq::empty()
    } else {
        match lookup(table.last().1, key) {
            Some(content) => gathered(table.drop_last(), key).push((content, table.last().0)),
            None => gathered(table.drop_last(), key),
        }
    }
}

/// The keys of a schema that are neither of the two that the report uses,
/// in their order.
pub open spec fn other_keys(schema: SchemaView) -> Seq<Seq<char>>
    decreases schema.len(),
{
    if schema.len() == 0 {
        Seq::empty()
    } else if schema.last().0 == introduction_key() || schema.last().0 == links_key() {
        other_keys(schema.drop_last())
    } else {
        other_keys(schema.drop_last()).push(schema.last().0)
    }
}

/// The documents that have keys left over, in their order, each with those
/// keys.
pub open spec fn left_over(table: Seq<(Seq<char>, SchemaView)>) -> Seq<(Seq<char>, Seq<Seq<char>>)>
    decreases table.len(),
{
    if table.len() == 0 {
        Seq::empty()
    } else if other_keys(table.last().1).len() > 0 {
        left_over(table.drop_last()).push((table.last().0, other_keys(table.last().1)))
    } else {
        left_over(table.drop_last())
    }
}

/// The views of a list of report entries.
pub open spec fn entry_views(entries: Seq<SchemaEntry>) -> Seq<(Seq<Seq<char>>, Seq<char>)> {
    Seq::new(entries.len(), |i: int| (string_views(entries[i].content@), entries[i].link@))
}

/// The views of a list of left-over keys.
pub open spec fn unused_views(unused: Seq<UnusedKeys>) -> Seq<(Seq<char>, Seq<Seq<char>>)> {
    Seq::new(unused.len(), |i: int| (unused[i].link@, string_views(unused[i].keys@)))
}

/// The keys of a schema that the report does not use.
fn keys_left(schema: &Schema) -> (r: Vec<String>)
    ensures
        string_views(r@) == other_keys(schema@),
{
    let first = INTRODUCTION_KEY.to_owned();
    let second = LINKS_KEY.to_owned();
    let mut r: Vec<String> = Vec::new();
    let mut i: usize = 0;
    assert(schema@.take(0) =~= SchemaView::empty());
    assert(string_views(r@) =~= Seq::<Seq<char>>::empty());
    while i < schema.len()
        invariant
            i <= schema@.len(),
            first@ == introduction_key(),
            second@ == links_key(),
            string_views(r@) == other_keys(schema@.take(i as int)),
        decreases schema@.len() - i,
    {
        proof {
            assert(schema@.take(i + 1).drop_last() =~= schema@.take(i as int));
            assert(schema@.take(i + 1).last() == schema@[i as int]);
        }
        match schema.key(i) {
            Some(key) => {
                if !(*key == first) && !(*key == second) {
                    let ghost before = string_views(r@);
                    r.push(key.clone());
                    assert(string_views(r@) =~= before.push(key@));
                }
            },
            None => {},
        }
        i = i + 1;
    }
    assert(schema@.take(schema@.len() as int) =~= schema@);
    r
}

/// Gathers the schemas of a run into its report.
///
/// The two sections that the landing page shows are taken out of every
/// document that has them, each with the path of its document, in the order
/// of the documents. Whatever else a document holds is named as left over
/// and is otherwise dropped.
pub fn aggregate_schemas(schemas: &SchemaTable) -> (r: SchemaReport)
    ensures
        entry_views(r.introductions@) == gathered(schemas@, introduction_key()),
        entry_views(r.links@) == gathered(schemas@, links_key()),
        unused_views(r.unused@) == left_over(schemas@),
{
    let mut introductions: Vec<SchemaEntry> = Vec::new();
    let mut links: Vec<SchemaEntry> = Vec::new();
    let mut unused: Vec<UnusedKeys> = Vec::new();
    let mut i: usize = 0;
    proof {
        assert(schemas@.take(0) =~= Seq::<(Seq<char>, SchemaView)>::empty());
        assert(entry_views(introductions@) =~= gathered(schemas@.take(0), introduction_key()));
        assert(entry_views(links@) =~= gathered(schemas@.take(0), links_key()));
        assert(unused_views(unused@) =~= left_over(schemas@.take(0)));
    }
    while i < schemas.len()
        invariant
            i <= schemas@.len(),
            entry_views(introductions@) == gathered(schemas@.take(i as int), introduction_key()),
            entry_views(links@) == gathered(schemas@.take(i as int), links_key()),
            unused_views(unused@) == left_over(schemas@.take(i as int)),
        decreases schemas@.len() - i,
    {
        proof {
            assert(schemas@.take(i + 1).drop_last() =~= schemas@.take(i as int));
            assert(schemas@.take(i + 1).last() == schemas@[i as int]);
        }
        match (schemas.path(i), schemas.schema(i)) {
            (Some(path), Some(schema)) => {
                match schema.get(INTRODUCTION_KEY) {
                    Some(content) => {
                        let ghost before = entry_views(introductions@);
                        introductions.push(
                            SchemaEntry { content: clone_strings(content), link: path.clone() },
                        );
                        assert(entry_views(introductions@) =~= before.push(
                            (string_views(content@), path@),
                        ));
                    },
                    None => {},
                }
                match schema.get(LINKS_KEY) {
                    Some(content) => {
                        let ghost before = entry_views(links@);
                        links.push(
                            SchemaEntry { content: clone_strings(content), link: path.clone() },
                        );
                        assert(entry_views(links@) =~= before.push(
                            (string_views(content@), path@),
                        ));
                    },
                    None => {},
                }
                let keys = keys_left(schema);
                if keys.len() > 0 {
                    let ghost before = unused_views(unused@);
                    unused.push(UnusedKeys { link: path.clone(), keys });
                    assert(unused_views(unused@) =~= before.push((path@, string_views(keys@))));
                }
            },
            _ => {},
        }
        i = i + 1;
    }
    assert(schemas@.take(schemas@.len() as int) =~= schemas@);
    SchemaReport { introductions, links, unused }
}

// ---------------------------------------------------------------------------
// The block in the parsed document

/// Whether bytes begin with the tag of a horizontal rule.
pub open spec fn is_rule(literal: Seq<u8>) -> bool {
    literal.len() >= 3 && literal[0] == 0x3c && literal[1] == 0x68 && literal[2] == 0x72
}

/// Whether the node at `at` cannot start a schema: it is a block of HTML
/// that is no horizontal rule.
pub open spec fn is_other_html(siblings: Seq<AstNode>, at: int) -> bool {
    siblings[at].value matches NodeValue::HtmlBlock(block) && !is_rule(block.literal@)
}

/// Whether the node behind `at` cannot be a key: it is a heading of another
/// level than 2.
pub open spec fn is_other_heading(siblings: Seq<AstNode>, at: int) -> bool {
    siblings[at + 1].value matches NodeValue::Heading(heading) && heading.level != 2
}

/// The line on which a schema starts behind the node at `at`, seen in the
/// parsed document: the line of the node that follows, where that node has a
/// child and a node behind it. Nothing starts behind a node that is not
/// there or behind a block of HTML that is no horizontal rule, nor before a
/// heading of another level than 2; a key or a value that is missing is an
/// error.
pub open spec fn schema_start(siblings: Seq<AstNode>, at: int) -> Result<Option<u32>, ErrorView> {
    if at < 0 || at >= siblings.len() || is_other_html(siblings, at) {
        Ok(None)
    } else if at + 1 >= siblings.len() {
        Err(ErrorView::InvalidSchema("expected attribution"@))
    } else if is_other_heading(siblings, at) {
        Ok(None)
    } else if siblings[at + 1].children@.len() == 0 {
        Err(ErrorView::InvalidSchema("expected attribution"@))
    } else if at + 2 >= siblings.len() {
        Err(ErrorView::InvalidSchema("expected value"@))
    } else {
        Ok(Some(siblings[at + 1].start_line))
    }
}

/// Looks behind one node of a list of siblings for the start of a schema
/// and notes its line.
pub fn parse_schema_start_line(siblings: &Vec<AstNode>, at: usize, schema_start_line: &mut u32) -> (r:
    Result<(), Error>)
    ensures
        match r {
            Ok(_) => match schema_start(siblings@, at as int) {
                Ok(Some(line)) => *final(schema_start_line) == line,
                Ok(None) => *final(schema_start_line) == *old(schema_start_line),
                Err(_) => false,
            },
            Err(e) => schema_start(siblings@, at as int) == Err::<Option<u32>, ErrorView>(e@)
                && *final(schema_start_line) == *old(schema_start_line),
        },
{
    if at >= siblings.len() {
        return Ok(());
    }
    match &siblings[at].value {
        NodeValue::HtmlBlock(block) => {
            let rule: bool = block.literal.len() >= 3 && block.literal[0] == 0x3c
                && block.literal[1] == 0x68 && block.literal[2] == 0x72;
            if !rule {
                return Ok(());
            }
        },
        _ => {},
    }
    if siblings.len() - at < 2 {
        return Err(Error::InvalidSchema("expected attribution".to_owned()));
    }
    let key = &siblings[at + 1];
    match &key.value {
        NodeValue::Heading(heading) => {
            if heading.level != 2 {
                return Ok(());
            }
        },
        _ => {},
    }
    if key.children.len() == 0 {
        return Err(Error::InvalidSchema("expected attribution".to_owned()));
    }
    if siblings.len() - at < 3 {
        return Err(Error::InvalidSchema("expected value".to_owned()));
    }
    *schema_start_line = key.start_line;
    Ok(())
}

} // verus!
