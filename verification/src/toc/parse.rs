//! From a flat outline with nesting levels to one path per entry, and from a
//! title to the name it has on disk.

use vstd::prelude::*;
use vstd::utf8::is_ascii_chars;
use crate::text::{
    ascii_lowercase, chars_of, clone_strings, has_prefix, is_ascii_upper, join, join_chars,
    lowercase, opt_view, slice_of, string_of, string_views, unicode_lowercase, views,
};

verus! {

/// One entry of an outline: a document, or a heading without content.
#[derive(Debug, PartialEq, Eq)]
pub enum TocEntry {
    Doc { level: u32, title: String, child_uuid: String, id: u32, url: String },
    Title { level: u32, title: String, child_uuid: String },
}

/// An outline entry with its texts as sequences of characters.
pub enum TocEntryView {
    Doc { level: u32, title: Seq<char>, child_uuid: Seq<char>, id: u32, url: Seq<char> },
    Title { level: u32, title: Seq<char>, child_uuid: Seq<char> },
}

impl TocEntryView {
    /// The nesting depth of the entry, from 0.
    pub open spec fn level(self) -> int {
        match self {
            TocEntryView::Doc { level, .. } => level as int,
            TocEntryView::Title { level, .. } => level as int,
        }
    }

    /// The text shown for the entry.
    pub open spec fn title(self) -> Seq<char> {
        match self {
            TocEntryView::Doc { title, .. } => title,
            TocEntryView::Title { title, .. } => title,
        }
    }

    /// Whether the entry opens a new nesting level: it names a first child.
    pub open spec fn opens(self) -> bool {
        match self {
            TocEntryView::Doc { child_uuid, .. } => child_uuid.len() > 0,
            TocEntryView::Title { child_uuid, .. } => child_uuid.len() > 0,
        }
    }
}

impl View for TocEntry {
    type V = TocEntryView;

    open spec fn view(&self) -> TocEntryView {
        match *self {
            TocEntry::Doc { level, title, child_uuid, id, url } => TocEntryView::Doc {
                level,
                title: title@,
                child_uuid: child_uuid@,
                id,
                url: url@,
            },
            TocEntry::Title { level, title, child_uuid } => TocEntryView::Title {
                level,
                title: title@,
                child_uuid: child_uuid@,
            },
        }
    }
}

impl Clone for TocEntry {
    fn clone(&self) -> (r: Self)
        ensures
            r == *self,
    {
        match self {
            TocEntry::Doc { level, title, child_uuid, id, url } => TocEntry::Doc {
                level: *level,
                title: title.clone(),
                child_uuid: child_uuid.clone(),
                id: *id,
                url: url.clone(),
            },
            TocEntry::Title { level, title, child_uuid } => TocEntry::Title {
                level: *level,
                title: title.clone(),
                child_uuid: child_uuid.clone(),
            },
        }
    }
}

impl TocEntry {
    /// The nesting depth of the entry, from 0.
    pub fn level(&self) -> (r: u32)
        ensures
            r == self@.level(),
    {
        match self {
            TocEntry::Doc { level, .. } => *level,
            TocEntry::Title { level, .. } => *level,
        }
    }

    /// The text shown for the entry.
    pub fn title(&self) -> (r: &String)
        ensures
            r@ == self@.title(),
    {
        match self {
            TocEntry::Doc { title, .. } => title,
            TocEntry::Title { title, .. } => title,
        }
    }

    /// Whether the entry opens a new nesting level.
    pub fn opens(&self) -> (r: bool)
        ensures
            r == self@.opens(),
    {
        match self {
            TocEntry::Doc { child_uuid, .. } => !child_uuid.as_str().is_empty(),
            TocEntry::Title { child_uuid, .. } => !child_uuid.as_str().is_empty(),
        }
    }
}

/// The views of a sequence of outline entries.
pub open spec fn entry_views(entries: Seq<TocEntry>) -> Seq<TocEntryView> {
    Seq::new(entries.len(), |i: int| entries[i]@)
}

// ---------------------------------------------------------------------------
// Names on disk

/// A character of the script that is written out by its sound.
pub open spec fn is_han(c: char) -> bool {
    '\u{4e00}' <= c <= '\u{9fa5}'
}

/// What the pinyin table holds for a character: its sound in Latin letters
/// without tone marks, or nothing.
pub uninterp spec fn pinyin_plain(c: char) -> Option<Seq<char>>;

/// Looks a character up in the table of the `pinyin` crate
/// (`ToPinyin::to_pinyin` on a `char`, then `Pinyin::plain`). The result
/// depends on the character alone; nothing more is claimed of it.
#[verifier::external_body]
fn pinyin_of(c: char) -> (r: Option<String>)
    ensures
        opt_view(r) == pinyin_plain(c),
{
    match pinyin::ToPinyin::to_pinyin(&c) {
        Some(sound) => Some(sound.plain().to_string()),
        None => None,
    }
}

/// The sound that is given for the character at a place, if any.
pub open spec fn sound_at(sounds: Seq<Option<Seq<char>>>, i: int) -> Option<Seq<char>> {
    if 0 <= i < sounds.len() {
        sounds[i]
    } else {
        None
    }
}

/// The segments of a title before they are hyphenated, for given sounds:
/// each character that has a sound gives a segment of its own, which is the
/// sound, and each longest run of other characters gives one.
pub open spec fn segments_with(s: Seq<char>, sounds: Seq<Option<Seq<char>>>) -> Seq<Seq<char>>
    decreases s.len(),
{
    if s.len() == 0 {
        Seq::empty()
    } else {
        let rest = segments_with(s.drop_last(), sounds);
        let i = s.len() - 1;
        match sound_at(sounds, i) {
            Some(sound) => rest.push(sound),
            None => if i >= 1 && sound_at(sounds, i - 1) is None && rest.len() > 0 {
                rest.drop_last().push(rest.last().push(s[i]))
            } else {
                rest.push(seq![s[i]])
            },
        }
    }
}

/// The sounds of a title: for each character of the script what the table
/// holds for it, and nothing for any other character.
pub open spec fn table_sounds(s: Seq<char>) -> Seq<Option<Seq<char>>> {
    Seq::new(
        s.len(),
        |i: int|
            if is_han(s[i]) {
                pinyin_plain(s[i])
            } else {
                None
            },
    )
}

/// The segments of a title before they are hyphenated. A character of the
/// script that the table lacks is kept like any other character.
pub open spec fn raw_segments(s: Seq<char>) -> Seq<Seq<char>> {
    segments_with(s, table_sounds(s))
}

/// A segment with a hyphen put before each ASCII capital letter but the
/// first character.
pub open spec fn hyphen_split(g: Seq<char>) -> Seq<char>
    decreases g.len(),
{
    if g.len() == 0 {
        Seq::empty()
    } else if is_ascii_upper(g.last()) && g.len() > 1 {
        hyphen_split(g.drop_last()).push('-').push(g.last())
    } else {
        hyphen_split(g.drop_last()).push(g.last())
    }
}

/// A segment as it stands in a name on disk: hyphenated, then in lower case.
pub open spec fn slug_segment(g: Seq<char>) -> Seq<char> {
    unicode_lowercase(hyphen_split(g))
}

/// The name on disk of a title: its segments, each hyphenated and in lower
/// case, joined by hyphens.
pub open spec fn slug(s: Seq<char>) -> Seq<char> {
    join(raw_segments(s).map_values(|g: Seq<char>| slug_segment(g)), seq!['-'])
}

/// A text of ASCII characters without capital letters.
pub open spec fn is_plain_slug(s: Seq<char>) -> bool {
    is_ascii_chars(s) && forall|i: int| 0 <= i < s.len() ==> !is_ascii_upper(#[trigger] s[i])
}

/// A text none of whose characters has a sound is one segment, or none if
/// it is empty.
pub proof fn lemma_segments_without_sounds(s: Seq<char>, sounds: Seq<Option<Seq<char>>>)
    requires
        forall|i: int| 0 <= i < s.len() ==> sound_at(sounds, i) is None,
    ensures
        segments_with(s, sounds) == if s.len() == 0 {
            Seq::<Seq<char>>::empty()
        } else {
            seq![s]
        },
    decreases s.len(),
{
    if s.len() > 0 {
        let t = s.drop_last();
        lemma_segments_without_sounds(t, sounds);
        assert(sound_at(sounds, s.len() - 1) is None);
        if s.len() >= 2 {
            assert(sound_at(sounds, s.len() - 2) is None);
            assert(segments_with(t, sounds) == seq![t]);
            assert(seq![t].drop_last().push(seq![t].last().push(s.last())) =~= seq![s]) by {
                assert(t.push(s.last()) =~= s);
            }
        } else {
            assert(seq![s.last()] =~= s);
            assert(segments_with(t, sounds).push(seq![s.last()]) =~= seq![s]);
        }
    }
}

/// Whether a character comes into a name on disk as ASCII: it is an ASCII
/// character, or a character of the script whose sound in the table is
/// written in ASCII.
pub open spec fn named_in_ascii(c: char) -> bool {
    if is_han(c) {
        pinyin_plain(c) is Some && is_ascii_chars(pinyin_plain(c)->0)
    } else {
        '\0' <= c <= '\u{7f}'
    }
}

/// A title all of whose characters come into its name on disk as ASCII.
pub open spec fn is_named_in_ascii(s: Seq<char>) -> bool {
    forall|i: int| 0 <= i < s.len() ==> named_in_ascii(#[trigger] s[i])
}

/// Hyphenating a text of ASCII characters gives one.
pub proof fn lemma_hyphen_split_ascii(g: Seq<char>)
    requires
        is_ascii_chars(g),
    ensures
        is_ascii_chars(hyphen_split(g)),
    decreases g.len(),
{
    if g.len() > 0 {
        assert forall|i: int| 0 <= i < g.drop_last().len() implies '\0' <= #[trigger] g.drop_last()[i]
            <= '\u{7f}' by {
            assert(g.drop_last()[i] == g[i]);
        }
        lemma_hyphen_split_ascii(g.drop_last());
        assert('\0' <= g[g.len() - 1] <= '\u{7f}');
    }
}

/// The lower-case form of a text of ASCII characters is a text of ASCII
/// characters without capital letters.
pub proof fn lemma_ascii_lowercase_plain(x: Seq<char>)
    requires
        is_ascii_chars(x),
    ensures
        is_plain_slug(ascii_lowercase(x)),
{
    assert forall|i: int| 0 <= i < ascii_lowercase(x).len() implies {
        &&& '\0' <= #[trigger] ascii_lowercase(x)[i] <= '\u{7f}'
        &&& !is_ascii_upper(ascii_lowercase(x)[i])
    } by {
        assert('\0' <= x[i] <= '\u{7f}');
    }
}

/// Whether what stands for the character at a place is ASCII: its sound,
/// or the character itself where it has none.
pub open spec fn ascii_at(s: Seq<char>, sounds: Seq<Option<Seq<char>>>, i: int) -> bool {
    match sound_at(sounds, i) {
        Some(sound) => is_ascii_chars(sound),
        None => '\0' <= s[i] <= '\u{7f}',
    }
}

/// Where every sound and every character without a sound is ASCII, every
/// segment is.
proof fn lemma_segments_ascii(s: Seq<char>, sounds: Seq<Option<Seq<char>>>)
    requires
        forall|i: int| 0 <= i < s.len() ==> #[trigger] ascii_at(s, sounds, i),
    ensures
        forall|k: int|
            0 <= k < segments_with(s, sounds).len() ==> is_ascii_chars(
                #[trigger] segments_with(s, sounds)[k],
            ),
    decreases s.len(),
{
    if s.len() > 0 {
        let t = s.drop_last();
        let i = s.len() - 1;
        assert forall|j: int| 0 <= j < t.len() implies #[trigger] ascii_at(t, sounds, j) by {
            assert(t[j] == s[j]);
            assert(ascii_at(s, sounds, j));
        }
        lemma_segments_ascii(t, sounds);
        let rest = segments_with(t, sounds);
        let all = segments_with(s, sounds);
        assert(ascii_at(s, sounds, i));
        assert forall|k: int| 0 <= k < all.len() implies is_ascii_chars(#[trigger] all[k]) by {
            match sound_at(sounds, i) {
                Some(sound) => {
                    assert(all == rest.push(sound));
                    if k < rest.len() {
                        assert(all[k] == rest[k]);
                    }
                },
                None => {
                    if i >= 1 && sound_at(sounds, i - 1) is None && rest.len() > 0 {
                        let grown = rest.last().push(s[i]);
                        assert(all == rest.drop_last().push(grown));
                        if k < rest.len() - 1 {
                            assert(all[k] == rest[k]);
                        } else {
                            let last = rest[rest.len() - 1];
                            assert(is_ascii_chars(last));
                            assert(grown == last.push(s[i]));
                            assert forall|m: int| 0 <= m < grown.len() implies '\0'
                                <= #[trigger] grown[m] <= '\u{7f}' by {
                                if m < last.len() {
                                    assert(grown[m] == last[m]);
                                    assert('\0' <= last[m] <= '\u{7f}');
                                } else {
                                    assert(grown[m] == s[i]);
                                }
                            }
                            assert(all[k] == grown);
                        }
                    } else {
                        assert(all == rest.push(seq![s[i]]));
                        if k < rest.len() {
                            assert(all[k] == rest[k]);
                        } else {
                            assert(seq![s[i]][0] == s[i]);
                        }
                    }
                },
            }
        }
    }
}

/// Texts of ASCII characters without capital letters, joined by hyphens,
/// are one.
proof fn lemma_join_plain(parts: Seq<Seq<char>>)
    requires
        forall|k: int| 0 <= k < parts.len() ==> is_plain_slug(#[trigger] parts[k]),
    ensures
        is_plain_slug(join(parts, seq!['-'])),
    decreases parts.len(),
{
    if parts.len() == 1 {
        assert(is_plain_slug(parts[0]));
    } else if parts.len() > 1 {
        let head = parts.drop_last();
        assert forall|k: int| 0 <= k < head.len() implies is_plain_slug(#[trigger] head[k]) by {
            assert(head[k] == parts[k]);
        }
        lemma_join_plain(head);
        let a = join(head, seq!['-']);
        let b = parts.last();
        assert(is_plain_slug(parts[parts.len() - 1]));
        let all = a + seq!['-'] + b;
        assert forall|i: int| 0 <= i < all.len() implies {
            &&& '\0' <= #[trigger] all[i] <= '\u{7f}'
            &&& !is_ascii_upper(all[i])
        } by {
            if i < a.len() {
                assert(all[i] == a[i]);
                assert('\0' <= a[i] <= '\u{7f}');
            } else if i == a.len() {
            } else {
                assert(all[i] == b[i - a.len() - 1]);
                assert('\0' <= b[i - a.len() - 1] <= '\u{7f}');
            }
        }
    }
}

/// Hyphenating changes nothing where no capital letter stands.
pub proof fn lemma_hyphen_split_without_capitals(g: Seq<char>)
    requires
        forall|i: int| 0 <= i < g.len() ==> !is_ascii_upper(#[trigger] g[i]),
    ensures
        hyphen_split(g) == g,
    decreases g.len(),
{
    if g.len() > 0 {
        lemma_hyphen_split_without_capitals(g.drop_last());
        assert(g.drop_last().push(g.last()) =~= g);
    }
}

/// Whether a character is an ASCII capital letter.
fn is_upper(c: char) -> (r: bool)
    ensures
        r == is_ascii_upper(c),
{
    c >= 'A' && c <= 'Z'
}

/// Whether a character belongs to the script.
fn in_han_range(c: char) -> (r: bool)
    ensures
        r == is_han(c),
{
    c >= '\u{4e00}' && c <= '\u{9fa5}'
}

/// Puts a hyphen before each ASCII capital letter but the first character.
pub fn hyphenate(g: &Vec<char>) -> (r: Vec<char>)
    ensures
        r@ == hyphen_split(g@),
{
    let mut r: Vec<char> = Vec::new();
    let mut i: usize = 0;
    while i < g.len()
        invariant
            i <= g.len(),
            r@ == hyphen_split(g@.take(i as int)),
        decreases g.len() - i,
    {
        assert(g@.take(i + 1).drop_last() =~= g@.take(i as int));
        if is_upper(g[i]) && i > 0 {
            r.push('-');
        }
        r.push(g[i]);
        i = i + 1;
    }
    assert(g@.take(g@.len() as int) =~= g@);
    r
}

/// The views of a list of sounds.
pub open spec fn sound_views(sounds: Seq<Option<String>>) -> Seq<Option<Seq<char>>> {
    Seq::new(sounds.len(), |i: int| opt_view(sounds[i]))
}

/// Looks up the sound of each character of the script in the table.
pub fn sounds_of(chars: &Vec<char>) -> (r: Vec<Option<String>>)
    ensures
        sound_views(r@) == table_sounds(chars@),
{
    let mut sounds: Vec<Option<String>> = Vec::new();
    let mut i: usize = 0;
    while i < chars.len()
        invariant
            i <= chars@.len(),
            sounds@.len() == i,
            forall|k: int| 0 <= k < i ==> opt_view(#[trigger] sounds@[k]) == table_sounds(chars@)[k],
        decreases chars@.len() - i,
    {
        let c: char = chars[i];
        let sound: Option<String> = if in_han_range(c) {
            pinyin_of(c)
        } else {
            None
        };
        sounds.push(sound);
        i = i + 1;
    }
    assert(sound_views(sounds@) =~= table_sounds(chars@));
    sounds
}

/// Splits a title into its segments, for given sounds: the sound of a
/// character stands for the character, and a character without a sound, or
/// one for which none is given, is kept.
pub fn segments_of(chars: &Vec<char>, sounds: &Vec<Option<String>>) -> (r: Vec<Vec<char>>)
    ensures
        views(r@) == segments_with(chars@, sound_views(sounds@)),
{
    let ghost given = sound_views(sounds@);
    let mut segments: Vec<Vec<char>> = Vec::new();
    let mut current: Vec<char> = Vec::new();
    let mut i: usize = 0;
    while i < chars.len()
        invariant
            i <= chars.len(),
            given == sound_views(sounds@),
            current@.len() > 0 <==> i > 0 && sound_at(given, i - 1) is None,
            segments_with(chars@.take(i as int), given) == if current@.len() > 0 {
                views(segments@).push(current@)
            } else {
                views(segments@)
            },
        decreases chars.len() - i,
    {
        let c: char = chars[i];
        let ghost prefix = chars@.take(i as int);
        let ghost next = chars@.take(i + 1);
        let ghost old_segments = views(segments@);
        let ghost old_current = current@;
        assert(next.drop_last() =~= prefix);
        assert(next[i as int] == c);
        let sound: Option<&String> = if i < sounds.len() {
            sounds[i].as_ref()
        } else {
            None
        };
        assert(match sound {
            Some(p) => sound_at(given, i as int) == Some(p@),
            None => sound_at(given, i as int) is None,
        });
        match sound {
            Some(p) => {
                if current.len() > 0 {
                    segments.push(current);
                    current = Vec::new();
                    assert(views(segments@) =~= old_segments.push(old_current));
                }
                let ghost mid = views(segments@);
                segments.push(chars_of(p.as_str()));
                assert(views(segments@) =~= mid.push(p@));
            },
            None => {
                current.push(c);
                proof {
                    if old_current.len() > 0 {
                        assert(old_segments.push(old_current).drop_last() =~= old_segments);
                    } else {
                        assert(current@ =~= seq![c]);
                    }
                }
            },
        }
        i = i + 1;
    }
    assert(chars@.take(chars@.len() as int) =~= chars@);
    if current.len() > 0 {
        let ghost old_segments = views(segments@);
        let ghost last = current@;
        segments.push(current);
        assert(views(segments@) =~= old_segments.push(last));
    }
    segments
}

/// The name on disk of a title.
///
/// Characters of the script are written out by their sound, one segment
/// each; the runs between them are kept. In each segment a hyphen goes before
/// every capital letter but the first character, and the segment is put in
/// lower case. The segments are joined by hyphens. A character of the script
/// that the table lacks is kept like any other character.
///
/// The result is a function of the title alone. The name of a title of
/// ASCII characters is the title hyphenated and with its capital letters
/// in lower case, so that such a title without capital letters comes back
/// unchanged. Where every character of the title comes into the name as
/// ASCII, the name is a text of ASCII characters without capital letters,
/// and naming it again changes nothing.
pub fn to_pinyin_or_lowercase(title: &str) -> (r: String)
    ensures
        r@ == slug(title@),
        is_ascii_chars(title@) ==> r@ == ascii_lowercase(hyphen_split(title@)),
        is_plain_slug(title@) ==> r@ == title@,
        is_named_in_ascii(title@) ==> is_plain_slug(r@),
{
    let chars = chars_of(title);
    let sounds = sounds_of(&chars);
    let segments = segments_of(&chars, &sounds);
    let mut done: Vec<Vec<char>> = Vec::new();
    let mut i: usize = 0;
    while i < segments.len()
        invariant
            i <= segments.len(),
            done@.len() == i,
            forall|k: int| 0 <= k < i ==> (#[trigger] done@[k])@ == slug_segment(segments@[k]@),
            forall|k: int|
                0 <= k < i && is_ascii_chars(hyphen_split(segments@[k]@)) ==> (#[trigger] done@[k])@
                    == ascii_lowercase(hyphen_split(segments@[k]@)),
        decreases segments.len() - i,
    {
        let split = hyphenate(&segments[i]);
        let low = lowercase(&split);
        done.push(low);
        i = i + 1;
    }
    let sep: Vec<char> = vec!['-'];
    let joined = join_chars(&done, &sep);
    proof {
        let wanted = raw_segments(title@).map_values(|g: Seq<char>| slug_segment(g));
        assert(views(done@) =~= wanted);
        assert(sep@ =~= seq!['-']);
        if is_ascii_chars(title@) {
            assert forall|k: int| 0 <= k < title@.len() implies sound_at(
                table_sounds(title@),
                k,
            ) is None by {
                assert('\0' <= title@[k] <= '\u{7f}');
            }
            lemma_segments_without_sounds(title@, table_sounds(title@));
            lemma_hyphen_split_ascii(title@);
            if title@.len() > 0 {
                assert(segments@[0]@ == title@);
                assert(done@[0]@ == ascii_lowercase(hyphen_split(title@)));
                assert(views(done@) =~= seq![ascii_lowercase(hyphen_split(title@))]);
            } else {
                assert(views(done@) =~= Seq::<Seq<char>>::empty());
                assert(ascii_lowercase(hyphen_split(title@)) =~= Seq::<char>::empty());
            }
            if is_plain_slug(title@) {
                lemma_hyphen_split_without_capitals(title@);
                assert(ascii_lowercase(title@) =~= title@);
            }
        }
        if is_named_in_ascii(title@) {
            let given = table_sounds(title@);
            assert forall|k: int| 0 <= k < title@.len() implies #[trigger] ascii_at(
                title@,
                given,
                k,
            ) by {
                assert(named_in_ascii(title@[k]));
            }
            lemma_segments_ascii(title@, given);
            assert forall|k: int| 0 <= k < views(done@).len() implies is_plain_slug(
                #[trigger] views(done@)[k],
            ) by {
                assert(is_ascii_chars(raw_segments(title@)[k]));
                assert(segments@[k]@ == raw_segments(title@)[k]);
                lemma_hyphen_split_ascii(segments@[k]@);
                lemma_ascii_lowercase_plain(hyphen_split(segments@[k]@));
                assert(done@[k]@ == ascii_lowercase(hyphen_split(segments@[k]@)));
            }
            lemma_join_plain(views(done@));
        }
    }
    string_of(&joined)
}

// ---------------------------------------------------------------------------
// Paths

/// Where one outline entry lives on disk.
///
/// `directory` is the chain of directories from the namespace's own directory
/// down to the one that holds the entry; `file_name` is the file in it, or
/// nothing for a heading, which stands for the directory itself.
#[derive(Debug, PartialEq, Eq)]
pub struct ResolvedPath {
    pub directory: Vec<String>,
    pub file_name: Option<String>,
    pub entry: TocEntry,
}

/// A resolved path with its texts as sequences of characters.
pub struct ResolvedPathView {
    pub directory: Seq<Seq<char>>,
    pub file_name: Option<Seq<char>>,
    pub entry: TocEntryView,
}

impl ResolvedPathView {
    /// How many directories lie between the namespace's directory and the
    /// entry.
    pub open spec fn depth(self) -> int {
        self.directory.len() - 1
    }

    /// The path as text, its parts joined by `/`.
    pub open spec fn path(self) -> Seq<char> {
        match self.file_name {
            Some(name) => join(self.directory.push(name), seq!['/']),
            None => join(self.directory, seq!['/']),
        }
    }
}

impl View for ResolvedPath {
    type V = ResolvedPathView;

    open spec fn view(&self) -> ResolvedPathView {
        ResolvedPathView {
            directory: string_views(self.directory@),
            file_name: opt_view(self.file_name),
            entry: self.entry@,
        }
    }
}

impl ResolvedPath {
    /// The path as text, its parts joined by `/`.
    pub fn path(&self) -> (r: String)
        ensures
            r@ == self@.path(),
    {
        let mut parts: Vec<Vec<char>> = Vec::new();
        let mut i: usize = 0;
        while i < self.directory.len()
            invariant
                i <= self.directory.len(),
                views(parts@) == string_views(self.directory@).take(i as int),
            decreases self.directory.len() - i,
        {
            let ghost before = views(parts@);
            let part = chars_of(self.directory[i].as_str());
            assert(part@ == string_views(self.directory@)[i as int]);
            parts.push(part);
            assert(views(parts@) =~= before.push(part@));
            i = i + 1;
            assert(views(parts@) =~= string_views(self.directory@).take(i as int));
        }
        assert(string_views(self.directory@).take(self.directory@.len() as int) =~= string_views(
            self.directory@,
        ));
        match &self.file_name {
            Some(name) => {
                let ghost before = views(parts@);
                parts.push(chars_of(name.as_str()));
                assert(views(parts@) =~= before.push(name@));
            },
            None => {},
        }
        let sep: Vec<char> = vec!['/'];
        assert(sep@ =~= seq!['/']);
        string_of(&join_chars(&parts, &sep))
    }
}

/// The views of a sequence of resolved paths.
pub open spec fn path_views(paths: Seq<ResolvedPath>) -> Seq<ResolvedPathView> {
    Seq::new(paths.len(), |i: int| paths[i]@)
}

/// The directory of a namespace: its name under the output directory.
pub open spec fn base_directory(root: Seq<char>) -> Seq<char> {
    "docs/"@ + root
}

/// A path below the output directory: the path without the output
/// directory that it was written under, or the path itself where it was
/// written elsewhere.
pub open spec fn below_output_root(path: Seq<char>) -> Seq<char> {
    if "docs/"@.is_prefix_of(path) {
        path.skip("docs/"@.len() as int)
    } else {
        path
    }
}

/// Takes the output directory off the front of a path.
pub fn strip_output_root(path: &str) -> (r: String)
    ensures
        r@ == below_output_root(path@),
{
    let chars = chars_of(path);
    let root = chars_of("docs/");
    if has_prefix(&chars, &root) {
        let rest = slice_of(&chars, root.len(), chars.len());
        assert(rest@ =~= path@.skip("docs/"@.len() as int));
        string_of(&rest)
    } else {
        path.to_owned()
    }
}

/// The name that is given for the entry at a place: empty where none is.
pub open spec fn name_at(names: Seq<Seq<char>>, i: int) -> Seq<char> {
    if 0 <= i < names.len() {
        names[i]
    } else {
        Seq::empty()
    }
}

/// The directory stack once every level deeper than the entry's is closed.
pub open spec fn popped(stack: Seq<Seq<char>>, e: TocEntryView) -> Seq<Seq<char>> {
    if e.level() < stack.len() - 1 {
        stack.take(e.level() + 1)
    } else {
        stack
    }
}

/// The directory stack after an entry whose name on disk is `name`: deeper
/// levels closed, and the entry's own directory opened if it has children.
pub open spec fn stack_after(stack: Seq<Seq<char>>, e: TocEntryView, name: Seq<char>) -> Seq<
    Seq<char>,
> {
    if e.opens() {
        popped(stack, e).push(name)
    } else {
        popped(stack, e)
    }
}

/// The directory stack before entry `i`: the namespace's directory alone
/// before the first one.
pub open spec fn stack_before(
    root: Seq<char>,
    entries: Seq<TocEntryView>,
    names: Seq<Seq<char>>,
    i: int,
) -> Seq<Seq<char>>
    decreases i,
{
    if i <= 0 {
        seq![base_directory(root)]
    } else {
        stack_after(stack_before(root, entries, names, i - 1), entries[i - 1], name_at(names, i - 1))
    }
}

/// The file of an entry in its directory: none for a heading, the landing
/// page for a document with children, and the document's own name otherwise.
pub open spec fn file_name_of(e: TocEntryView, name: Seq<char>) -> Option<Seq<char>> {
    match e {
        TocEntryView::Title { .. } => None,
        TocEntryView::Doc { .. } => if e.opens() {
            Some("index.md"@)
        } else {
            Some(name + ".md"@)
        },
    }
}

/// The path of an entry that is met with the given directory stack.
pub open spec fn resolved(stack: Seq<Seq<char>>, e: TocEntryView, name: Seq<char>) -> ResolvedPathView {
    ResolvedPathView {
        directory: stack_after(stack, e, name),
        file_name: file_name_of(e, name),
        entry: e,
    }
}

/// The paths of an outline whose entries have the given names on disk: one
/// for each entry, in the outline's order.
pub open spec fn resolve_with(
    root: Seq<char>,
    entries: Seq<TocEntryView>,
    names: Seq<Seq<char>>,
) -> Seq<ResolvedPathView> {
    Seq::new(
        entries.len(),
        |i: int| resolved(stack_before(root, entries, names, i), entries[i], name_at(names, i)),
    )
}

/// The names on disk of the entries of an outline.
pub open spec fn slugs(entries: Seq<TocEntryView>) -> Seq<Seq<char>> {
    Seq::new(entries.len(), |i: int| slug(entries[i].title()))
}

/// The paths of an outline, each entry under the name of its title.
pub open spec fn resolve(root: Seq<char>, entries: Seq<TocEntryView>) -> Seq<ResolvedPathView> {
    resolve_with(root, entries, slugs(entries))
}

/// The stack always holds the namespace's directory.
pub proof fn lemma_stack_nonempty(
    root: Seq<char>,
    entries: Seq<TocEntryView>,
    names: Seq<Seq<char>>,
    i: int,
)
    ensures
        stack_before(root, entries, names, i).len() >= 1,
        stack_before(root, entries, names, i)[0] == base_directory(root),
    decreases i,
{
    if i > 0 {
        lemma_stack_nonempty(root, entries, names, i - 1);
    }
}

/// Resolves an outline whose entries have the given names on disk to one
/// path per entry, in the outline's order. An entry for which no name is
/// given has the empty name.
///
/// A stack of directories starts with the namespace's own. For each entry,
/// the levels deeper than the entry's are closed; an entry with children
/// opens a directory of its name; then the entry's path is the stack itself
/// for a heading, the landing page `index.md` in it for a document with
/// children, and a file of the entry's name for any other document.
pub fn resolve_paths(root: &str, toc: &Vec<TocEntry>, names: &Vec<String>) -> (r: Vec<ResolvedPath>)
    ensures
        path_views(r@) == resolve_with(root@, entry_views(toc@), string_views(names@)),
{
    let ghost entries = entry_views(toc@);
    let ghost given = string_views(names@);
    let mut base: String = "docs/".to_owned();
    base.append(root);
    let mut stack: Vec<String> = Vec::new();
    stack.push(base);
    assert(string_views(stack@) =~= seq![base_directory(root@)]);
    let mut result: Vec<ResolvedPath> = Vec::new();
    let mut i: usize = 0;
    while i < toc.len()
        invariant
            i <= toc.len(),
            entries == entry_views(toc@),
            given == string_views(names@),
            stack@.len() >= 1,
            string_views(stack@) == stack_before(root@, entries, given, i as int),
            result@.len() == i,
            forall|k: int|
                0 <= k < i ==> (#[trigger] result@[k])@ == resolved(
                    stack_before(root@, entries, given, k),
                    entries[k],
                    name_at(given, k),
                ),
        decreases toc.len() - i,
    {
        let entry = &toc[i];
        let ghost e = entry@;
        let ghost before = string_views(stack@);
        assert(entries[i as int] == e);
        let level: u32 = entry.level();
        if (level as usize) < stack.len() - 1 {
            stack.truncate(level as usize + 1);
        }
        assert(string_views(stack@) =~= popped(before, e));
        let name: String = if i < names.len() {
            names[i].clone()
        } else {
            String::new()
        };
        assert(name@ == name_at(given, i as int));
        let opens = entry.opens();
        if opens {
            let ghost mid = string_views(stack@);
            stack.push(name.clone());
            assert(string_views(stack@) =~= mid.push(name@));
        }
        assert(string_views(stack@) == stack_after(before, e, name@));
        let file_name: Option<String> = match entry {
            TocEntry::Title { .. } => None,
            TocEntry::Doc { .. } => if opens {
                Some("index.md".to_owned())
            } else {
                let mut file = name;
                file.append(".md");
                Some(file)
            },
        };
        let path = ResolvedPath {
            directory: clone_strings(&stack),
            file_name,
            entry: entry.clone(),
        };
        assert(path@ == resolved(before, e, name_at(given, i as int)));
        result.push(path);
        i = i + 1;
    }
    assert(path_views(result@) =~= resolve_with(root@, entries, given));
    result
}

/// Resolves an outline to one path per entry, in the outline's order, each
/// entry under the name on disk of its title.
pub fn parse_toc_structure(root: &str, toc: &Vec<TocEntry>) -> (r: Vec<ResolvedPath>)
    ensures
        path_views(r@) == resolve(root@, entry_views(toc@)),
{
    let mut names: Vec<String> = Vec::new();
    let mut i: usize = 0;
    while i < toc.len()
        invariant
            i <= toc@.len(),
            names@.len() == i,
            forall|k: int| 0 <= k < i ==> (#[trigger] names@[k])@ == slug(toc@[k]@.title()),
        decreases toc@.len() - i,
    {
        names.push(to_pinyin_or_lowercase(toc[i].title().as_str()));
        i = i + 1;
    }
    assert(string_views(names@) =~= slugs(entry_views(toc@)));
    resolve_paths(root, toc, &names)
}

/// An outline in which every entry sits where its level says: an entry with
/// children lies one level below the entry before it, any other entry at
/// most as deep as the entry before it. The first entry is held against
/// level 0.
pub open spec fn aligned(entries: Seq<TocEntryView>) -> bool {
    forall|i: int| 0 <= i < entries.len() ==> #[trigger] aligned_at(entries, i)
}

/// Whether entry `i` sits where its level says.
pub open spec fn aligned_at(entries: Seq<TocEntryView>, i: int) -> bool {
    let previous = if i == 0 {
        0
    } else {
        entries[i - 1].level()
    };
    if entries[i].opens() {
        entries[i].level() == previous + 1
    } else {
        entries[i].level() <= previous
    }
}

/// Whether every entry up to `n` resolves to a path as deep as its level.
pub open spec fn depths_match(
    root: Seq<char>,
    entries: Seq<TocEntryView>,
    names: Seq<Seq<char>>,
    n: int,
) -> bool {
    forall|i: int|
        0 <= i < n ==> (#[trigger] resolve_with(root, entries, names)[i]).depth()
            == entries[i].level()
}

/// In an outline that is aligned up to an entry, the stack before the entry
/// is as deep as the level of the entry before it.
proof fn lemma_stack_tracks_level(
    root: Seq<char>,
    entries: Seq<TocEntryView>,
    names: Seq<Seq<char>>,
    i: int,
)
    requires
        0 <= i <= entries.len(),
        forall|k: int| 0 <= k < i ==> #[trigger] aligned_at(entries, k),
    ensures
        stack_before(root, entries, names, i).len() - 1 == if i == 0 {
            0
        } else {
            entries[i - 1].level()
        },
    decreases i,
{
    if i > 0 {
        lemma_stack_tracks_level(root, entries, names, i - 1);
        assert(aligned_at(entries, i - 1));
    }
}

/// In an aligned outline every path is as deep as its entry's level, and
/// every entry of level 0 lies in the namespace's own directory, whatever
/// the names of the entries are.
pub proof fn lemma_aligned_depths(
    root: Seq<char>,
    entries: Seq<TocEntryView>,
    names: Seq<Seq<char>>,
)
    requires
        aligned(entries),
    ensures
        forall|i: int|
            0 <= i < entries.len() ==> (#[trigger] resolve_with(root, entries, names)[i]).depth()
                == entries[i].level(),
        forall|i: int|
            0 <= i < entries.len() && entries[i].level() == 0 ==> (#[trigger] resolve_with(
                root,
                entries,
                names,
            )[i]).directory == seq![base_directory(root)],
{
    assert forall|i: int| 0 <= i < entries.len() implies {
        &&& (#[trigger] resolve_with(root, entries, names)[i]).depth() == entries[i].level()
        &&& entries[i].level() == 0 ==> resolve_with(root, entries, names)[i].directory == seq![
            base_directory(root),
        ]
    } by {
        lemma_stack_tracks_level(root, entries, names, i);
        lemma_stack_nonempty(root, entries, names, i);
        assert(aligned_at(entries, i));
        let stack = stack_before(root, entries, names, i);
        if entries[i].level() == 0 {
            assert(!entries[i].opens());
            assert(popped(stack, entries[i]) =~= seq![base_directory(root)]);
        }
    }
}

/// Two entries of one level that follow each other and open nothing lie in
/// one directory, in any outline.
pub proof fn lemma_siblings_share_directory(
    root: Seq<char>,
    entries: Seq<TocEntryView>,
    names: Seq<Seq<char>>,
    i: int,
)
    requires
        0 <= i,
        i + 1 < entries.len(),
        entries[i].level() == entries[i + 1].level(),
        !entries[i].opens(),
        !entries[i + 1].opens(),
    ensures
        resolve_with(root, entries, names)[i].directory == resolve_with(
            root,
            entries,
            names,
        )[i + 1].directory,
{
    lemma_stack_nonempty(root, entries, names, i);
    let stack = stack_before(root, entries, names, i);
    let after = stack_after(stack, entries[i], name_at(names, i));
    assert(stack_before(root, entries, names, i + 1) == after);
    assert(popped(after, entries[i + 1]) =~= after);
}

/// Only in an aligned outline is every path as deep as its entry's level.
pub proof fn lemma_depths_need_alignment(
    root: Seq<char>,
    entries: Seq<TocEntryView>,
    names: Seq<Seq<char>>,
)
    requires
        depths_match(root, entries, names, entries.len() as int),
    ensures
        aligned(entries),
{
    lemma_depths_give_alignment(root, entries, names, entries.len() as int);
}

/// Where the first `n` paths are as deep as their levels, the first `n`
/// entries are aligned.
proof fn lemma_depths_give_alignment(
    root: Seq<char>,
    entries: Seq<TocEntryView>,
    names: Seq<Seq<char>>,
    n: int,
)
    requires
        0 <= n <= entries.len(),
        depths_match(root, entries, names, n),
    ensures
        forall|k: int| 0 <= k < n ==> #[trigger] aligned_at(entries, k),
    decreases n,
{
    if n > 0 {
        lemma_depths_give_alignment(root, entries, names, n - 1);
        lemma_stack_tracks_level(root, entries, names, n - 1);
        lemma_stack_nonempty(root, entries, names, n - 1);
        let i = n - 1;
        assert(resolve_with(root, entries, names)[i].depth() == entries[i].level());
        assert(aligned_at(entries, i));
    }
}

} // verus!
