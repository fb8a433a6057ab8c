//! The navigation bar: which namespace stands where on its top level.

use vstd::prelude::*;
use crate::table::{lemma_position_of, lemma_same_positions, position_of, StrMap};
use crate::toc::NavbarItem;

verus! {

broadcast use vstd::string::group_string_axioms;

/// One entry of the navigation bar's top level.
#[derive(Debug, PartialEq, Eq)]
pub enum NavbarEntry {
    /// A group with a label.
    Group { text: String, items: Vec<NavbarItem> },
    /// A namespace on its own.
    Item(NavbarItem),
}

/// A top-level entry with its label as a sequence.
pub enum NavbarEntryView {
    Group { text: Seq<char>, items: Seq<NavbarItem> },
    Item(NavbarItem),
}

impl View for NavbarEntry {
    type V = NavbarEntryView;

    open spec fn view(&self) -> NavbarEntryView {
        match *self {
            NavbarEntry::Group { text, items } => NavbarEntryView::Group {
                text: text@,
                items: items@,
            },
            NavbarEntry::Item(item) => NavbarEntryView::Item(item),
        }
    }
}

/// The views of a list of top-level entries.
pub open spec fn navbar_views(entries: Seq<NavbarEntry>) -> Seq<NavbarEntryView> {
    Seq::new(entries.len(), |i: int| entries[i]@)
}

/// The label of the group of the namespaces that name no place.
pub const DEFAULT_GROUP: &'static str = "知识库";

/// The place that a namespace names to stand on its own.
pub const OWN_PLACE: &'static str = "true";

/// Whether a namespace goes into a group of its own label.
pub open spec fn has_group(nav: Seq<char>) -> bool {
    nav.len() > 0 && nav != OWN_PLACE@
}

/// The groups with one more item under a label: behind the items that the
/// label had, or as a new last group.
pub open spec fn grouped(
    groups: Seq<(Seq<char>, Seq<NavbarItem>)>,
    label: Seq<char>,
    item: NavbarItem,
) -> Seq<(Seq<char>, Seq<NavbarItem>)> {
    let at = position_of(groups, label);
    if at < groups.len() {
        groups.update(at, (label, groups[at].1.push(item)))
    } else {
        groups.push((label, seq![item]))
    }
}

/// The labelled groups of the first `n` items, in the order in which
/// their labels came.
pub open spec fn labelled_groups(placed: Seq<(Seq<char>, NavbarItem)>, n: int) -> Seq<
    (Seq<char>, Seq<NavbarItem>),
>
    decreases n,
{
    if n <= 0 || n > placed.len() {
        Seq::empty()
    } else if has_group(placed[n - 1].0) {
        grouped(
            labelled_groups(placed, n - 1),
            placed[n - 1].0,
            placed[n - 1].1,
        )
    } else {
        labelled_groups(placed, n - 1)
    }
}

/// Those of the first `n` items that stand on their own.
pub open spec fn single_items(placed: Seq<(Seq<char>, NavbarItem)>, n: int) -> Seq<NavbarItem>
    decreases n,
{
    if n <= 0 || n > placed.len() {
        Seq::empty()
    } else if placed[n - 1].0 == OWN_PLACE@ {
        single_items(placed, n - 1).push(placed[n - 1].1)
    } else {
        single_items(placed, n - 1)
    }
}

/// Those of the first `n` items that name no place.
pub open spec fn default_items(placed: Seq<(Seq<char>, NavbarItem)>, n: int) -> Seq<NavbarItem>
    decreases n,
{
    if n <= 0 || n > placed.len() {
        Seq::empty()
    } else if placed[n - 1].0.len() == 0 {
        default_items(placed, n - 1).push(placed[n - 1].1)
    } else {
        default_items(placed, n - 1)
    }
}

/// The navigation bar: the labelled groups, then the namespaces that stand
/// on their own, then the group of all others, if there are any.
pub open spec fn navbar_of(placed: Seq<(Seq<char>, NavbarItem)>) -> Seq<NavbarEntryView> {
    let n = placed.len() as int;
    Seq::new(
        labelled_groups(placed, n).len(),
        |i: int|
            NavbarEntryView::Group {
                text: labelled_groups(placed, n)[i].0,
                items: labelled_groups(placed, n)[i].1,
            },
    ) + Seq::new(
        single_items(placed, n).len(),
        |i: int| NavbarEntryView::Item(single_items(placed, n)[i]),
    ) + if default_items(placed, n).len() > 0 {
        seq![NavbarEntryView::Group { text: DEFAULT_GROUP@, items: default_items(placed, n) }]
    } else {
        Seq::empty()
    }
}

/// Groups with their items as sequences.
pub open spec fn group_views(groups: Seq<(Seq<char>, Vec<NavbarItem>)>) -> Seq<
    (Seq<char>, Seq<NavbarItem>),
> {
    Seq::new(groups.len(), |i: int| (groups[i].0, groups[i].1@))
}

/// Items with the places they name, the places as sequences.
pub open spec fn place_views(placed: Seq<(String, NavbarItem)>) -> Seq<(Seq<char>, NavbarItem)> {
    Seq::new(placed.len(), |i: int| (placed[i].0@, placed[i].1))
}

/// Builds the navigation bar from the items of the namespaces, each with
/// the place that its namespace names.
///
/// An item that names a label goes into the group of that label, the groups
/// in the order in which their labels came; one that names `true` stands on
/// its own behind the groups; all others form one last group.
pub fn build_navbar(placed: Vec<(String, NavbarItem)>) -> (r: Vec<NavbarEntry>)
    ensures
        navbar_views(r@) == navbar_of(place_views(placed@)),
{
    let ghost all = place_views(placed@);
    let mut rest = placed;
    let mut groups: StrMap<Vec<NavbarItem>> = StrMap::new();
    let mut singles: Vec<NavbarItem> = Vec::new();
    let mut defaults: Vec<NavbarItem> = Vec::new();
    let ghost mut done: int = 0;
    proof {
        assert(all.skip(0) =~= all);
        assert(group_views(groups.entries()) =~= labelled_groups(all, 0));
    }
    while rest.len() > 0
        invariant
            0 <= done <= all.len(),
            place_views(rest@) == all.skip(done),
            group_views(groups.entries()) == labelled_groups(all, done),
            singles@ == single_items(all, done),
            defaults@ == default_items(all, done),
        decreases rest@.len(),
    {
        proof {
            assert(place_views(rest@).len() == rest@.len());
            assert(all.skip(done).len() == all.len() - done);
            assert(all.skip(done)[0] == all[done]);
            assert(place_views(rest@)[0] == (rest@[0].0@, rest@[0].1));
        }
        let ghost rest_before = rest@;
        let one = rest.remove(0);
        proof {
            assert forall|k: int| 0 <= k < rest@.len() implies place_views(rest@)[k] == all.skip(
                done + 1,
            )[k] by {
                assert(place_views(rest_before)[k + 1] == (rest_before[k + 1].0@, rest_before[k + 1].1));
            }
            assert(place_views(rest@) =~= all.skip(done + 1));
        }
        let label: String = one.0;
        let navbar_item: NavbarItem = one.1;
        assert(all[done] == (label@, navbar_item));
        proof {
            reveal_strlit("true");
        }
        if label.as_str().is_empty() {
            defaults.push(navbar_item);
        } else if label == OWN_PLACE.to_owned() {
            singles.push(navbar_item);
        } else {
            let ghost groups_before = groups.entries();
            proof {
                lemma_same_positions(groups_before, group_views(groups_before), label@);
                lemma_position_of(groups_before, label@);
            }
            let at = groups.position(label.as_str());
            if at < groups.len() {
                let mut items = groups.replace(at, Vec::new());
                items.push(navbar_item);
                let _ = groups.replace(at, items);
                proof {
                    assert(group_views(groups.entries()) =~= grouped(
                        labelled_groups(all, done),
                        label@,
                        navbar_item,
                    ));
                }
            } else {
                let mut items: Vec<NavbarItem> = Vec::new();
                items.push(navbar_item);
                assert(items@ =~= seq![navbar_item]);
                groups.insert(label, items);
                proof {
                    assert(group_views(groups.entries()) =~= grouped(
                        labelled_groups(all, done),
                        label@,
                        navbar_item,
                    ));
                }
            }
        }
        proof {
            done = done + 1;
        }
    }
    let ghost labelled = groups.entries();
    proof {
        assert(all.skip(done).len() == all.len() - done);
        assert(done == all.len());
    }
    assert(group_views(labelled) == labelled_groups(all, all.len() as int));
    let mut pairs = groups.into_entries();
    let mut navbar: Vec<NavbarEntry> = Vec::new();
    let ghost mut moved: int = 0;
    assert(navbar_views(navbar@) =~= Seq::<NavbarEntryView>::empty());
    while pairs.len() > 0
        invariant
            0 <= moved <= labelled.len(),
            pairs@.len() == labelled.len() - moved,
            forall|i: int|
                0 <= i < pairs@.len() ==> (#[trigger] pairs@[i]).0@ == labelled[moved + i].0
                    && pairs@[i].1@ == labelled[moved + i].1@,
            navbar@.len() == moved,
            forall|i: int|
                0 <= i < moved ==> (#[trigger] navbar@[i])@ == (NavbarEntryView::Group {
                    text: labelled[i].0,
                    items: labelled[i].1@,
                }),
        decreases pairs@.len(),
    {
        let pair = pairs.remove(0);
        navbar.push(NavbarEntry::Group { text: pair.0, items: pair.1 });
        proof {
            moved = moved + 1;
        }
    }
    let ghost group_count = navbar@.len();
    let ghost single_list = singles@;
    let ghost mut stood: int = 0;
    while singles.len() > 0
        invariant
            0 <= stood <= single_list.len(),
            singles@ == single_list.skip(stood),
            navbar@.len() == group_count + stood,
            group_count == labelled.len(),
            forall|i: int|
                0 <= i < group_count ==> (#[trigger] navbar@[i])@ == (NavbarEntryView::Group {
                    text: labelled[i].0,
                    items: labelled[i].1@,
                }),
            forall|i: int|
                0 <= i < stood ==> (#[trigger] navbar@[group_count + i])@
                    == NavbarEntryView::Item(single_list[i]),
        decreases singles@.len(),
    {
        proof {
            assert(single_list.skip(stood).len() == single_list.len() - stood);
            assert(single_list.skip(stood)[0] == single_list[stood]);
        }
        let item = singles.remove(0);
        navbar.push(NavbarEntry::Item(item));
        proof {
            assert(singles@ =~= single_list.skip(stood + 1));
            stood = stood + 1;
        }
    }
    let ghost default_list = defaults@;
    proof {
        assert(single_list.skip(stood).len() == single_list.len() - stood);
        assert(stood == single_list.len());
    }
    if defaults.len() > 0 {
        navbar.push(NavbarEntry::Group { text: DEFAULT_GROUP.to_owned(), items: defaults });
    }
    proof {
        assert(default_list == default_items(all, all.len() as int));
        assert(single_list == single_items(all, all.len() as int));
        assert(labelled.len() == labelled_groups(all, all.len() as int).len());
        assert forall|i: int| 0 <= i < labelled.len() implies labelled_groups(
            all,
            all.len() as int,
        )[i] == (labelled[i].0, labelled[i].1@) by {
            assert(group_views(labelled)[i] == (labelled[i].0, labelled[i].1@));
        }
        let n = all.len() as int;
        let first = Seq::new(
            labelled_groups(all, n).len(),
            |i: int|
                NavbarEntryView::Group {
                    text: labelled_groups(all, n)[i].0,
                    items: labelled_groups(all, n)[i].1,
                },
        );
        let second = Seq::new(
            single_items(all, n).len(),
            |i: int| NavbarEntryView::Item(single_items(all, n)[i]),
        );
        let third = if default_items(all, n).len() > 0 {
            seq![NavbarEntryView::Group { text: DEFAULT_GROUP@, items: default_items(all, n) }]
        } else {
            Seq::<NavbarEntryView>::empty()
        };
        assert(navbar_of(all) == first + second + third);
        assert(navbar@.len() == first.len() + second.len() + third.len());
        assert forall|i: int| 0 <= i < navbar@.len() implies navbar_views(navbar@)[i] == (first
            + second + third)[i] by {
            if i < group_count {
                assert(navbar@[i]@ == first[i]);
            } else if i < group_count + stood {
                assert(navbar@[group_count + (i - group_count)]@ == second[i - group_count]);
            } else {
                assert(navbar@[i]@ == third[0]);
            }
        }
        assert(navbar_views(navbar@) =~= first + second + third);
    }
    navbar
}

} // verus!
