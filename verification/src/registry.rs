//! What registering the descriptors of a rule table adds to the categories of
//! a profile.
//!
//! A category is registered once, however many descriptors name it, and so is
//! each of its subcategories. Categories come in the order in which the table
//! first names them, each with the subcategory "Other" followed by its
//! subcategories in the order in which the table first names those.

use crate::categories::{CategoryColor, Descriptor};
use crate::sink::CategoryEntry;
use vstd::prelude::*;

verus! {

/// The index of the first item that is `wanted`; `items.len()` when none is.
pub open spec fn first_index<T>(items: Seq<T>, wanted: spec_fn(T) -> bool) -> int
    decreases items.len(),
{
    if items.len() == 0 || wanted(items[0]) {
        0
    } else {
        1 + first_index(items.drop_first(), wanted)
    }
}

/// `first_index` finds a wanted item, and none stands before it.
pub proof fn lemma_first_index<T>(items: Seq<T>, wanted: spec_fn(T) -> bool)
    ensures
        0 <= first_index(items, wanted) <= items.len(),
        first_index(items, wanted) < items.len() ==> wanted(items[first_index(items, wanted)]),
        forall|k: int| 0 <= k < first_index(items, wanted) ==> !wanted(#[trigger] items[k]),
    decreases items.len(),
{
    if items.len() != 0 && !wanted(items[0]) {
        let rest = items.drop_first();
        lemma_first_index(rest, wanted);
        assert forall|k: int| 0 <= k < first_index(items, wanted) implies !wanted(
            #[trigger] items[k],
        ) by {
            if k > 0 {
                assert(items[k] == rest[k - 1]);
            }
        }
    }
}

/// Where no item before `at` is wanted and the one at `at` is (or the items
/// end there), `first_index` is `at`.
pub proof fn lemma_first_index_is<T>(items: Seq<T>, wanted: spec_fn(T) -> bool, at: int)
    requires
        0 <= at <= items.len(),
        forall|k: int| 0 <= k < at ==> !wanted(#[trigger] items[k]),
        at < items.len() ==> wanted(items[at]),
    ensures
        first_index(items, wanted) == at,
{
    lemma_first_index(items, wanted);
}

/// The entry is the category of that name and colour.
pub open spec fn is_category(name: Seq<char>, color: CategoryColor) -> spec_fn(
    CategoryEntry,
) -> bool {
    |entry: CategoryEntry| entry.name == name && entry.color == color
}

/// The text is that name.
pub open spec fn is_named(name: Seq<char>) -> spec_fn(Seq<char>) -> bool {
    |text: Seq<char>| text == name
}

/// The index, among `entries`, of the category of that name and colour;
/// `entries.len()` when it is not among them.
pub open spec fn category_position(
    entries: Seq<CategoryEntry>,
    name: Seq<char>,
    color: CategoryColor,
) -> int {
    first_index(entries, is_category(name, color))
}

/// The index, among the subcategories of one category, of the registered
/// subcategory of that name; `subcategories.len()` or more when there is none.
/// The subcategory at index 0 is the one every category starts with, which no
/// descriptor registers: the search passes over it.
pub open spec fn subcategory_position(subcategories: Seq<Seq<char>>, name: Seq<char>) -> int {
    1 + first_index(subcategories.skip(1), is_named(name))
}

/// A category as it is first registered.
pub open spec fn new_entry(name: Seq<char>, color: CategoryColor) -> CategoryEntry {
    CategoryEntry { name, color, subcategories: seq!["Other"@] }
}

/// The entry with one more subcategory.
pub open spec fn with_subcategory(entry: CategoryEntry, name: Seq<char>) -> CategoryEntry {
    CategoryEntry { subcategories: entry.subcategories.push(name), ..entry }
}

/// The entries with the descriptor's category among them: appended, unless it
/// was there.
pub open spec fn register_category(entries: Seq<CategoryEntry>, descriptor: Descriptor) -> Seq<
    CategoryEntry,
> {
    let name = descriptor.category_name();
    let color = descriptor.category_color();
    if category_position(entries, name, color) < entries.len() {
        entries
    } else {
        entries.push(new_entry(name, color))
    }
}

/// The entries after one more descriptor has been registered: its category is
/// among them and, for a subcategory descriptor, the subcategory is among the
/// category's. What was registered before stays where it was.
pub open spec fn register(entries: Seq<CategoryEntry>, descriptor: Descriptor) -> Seq<
    CategoryEntry,
> {
    let with_category = register_category(entries, descriptor);
    match descriptor {
        Descriptor::Category { .. } => with_category,
        Descriptor::Subcategory { name, color, subcategory } => {
            let at = category_position(with_category, name, color);
            let known = with_category[at].subcategories;
            if subcategory_position(known, subcategory) < known.len() {
                with_category
            } else {
                with_category.update(at, with_subcategory(with_category[at], subcategory))
            }
        },
    }
}

/// The entries after the descriptors have been registered in order, starting
/// from `entries`.
pub open spec fn register_all(entries: Seq<CategoryEntry>, descriptors: Seq<Descriptor>) -> Seq<
    CategoryEntry,
>
    decreases descriptors.len(),
{
    if descriptors.len() == 0 {
        entries
    } else {
        register(register_all(entries, descriptors.drop_last()), descriptors.last())
    }
}

/// The subcategory index that a descriptor has among `entries`: 0 for a plain
/// category, and the position of the named subcategory otherwise.
pub open spec fn subcategory_index_of(entries: Seq<CategoryEntry>, descriptor: Descriptor) -> int {
    match descriptor {
        Descriptor::Category { .. } => 0,
        Descriptor::Subcategory { name, color, subcategory } => subcategory_position(
            entries[category_position(entries, name, color)].subcategories,
            subcategory,
        ),
    }
}

/// The descriptor has been registered among `entries`: its category is there
/// and, for a subcategory descriptor, so is the subcategory.
pub open spec fn is_registered(entries: Seq<CategoryEntry>, descriptor: Descriptor) -> bool {
    let at = category_position(entries, descriptor.category_name(), descriptor.category_color());
    &&& at < entries.len()
    &&& 0 <= subcategory_index_of(entries, descriptor) < entries[at].subcategories.len()
}

/// Every entry has the subcategory that categories start with.
pub open spec fn entries_started(entries: Seq<CategoryEntry>) -> bool {
    forall|k: int| 0 <= k < entries.len() ==> (#[trigger] entries[k]).subcategories.len() >= 1
}

/// Registering a descriptor leaves every category at its position and every
/// registered subcategory at its own, and registers the descriptor.
pub proof fn lemma_register(entries: Seq<CategoryEntry>, descriptor: Descriptor)
    requires
        entries_started(entries),
    ensures
        entries_started(register(entries, descriptor)),
        is_registered(register(entries, descriptor), descriptor),
        entries.len() <= register(entries, descriptor).len() <= entries.len() + 1,
        is_registered(entries, descriptor) ==> register(entries, descriptor) == entries,
        category_position(
            register(entries, descriptor),
            descriptor.category_name(),
            descriptor.category_color(),
        ) == category_position(entries, descriptor.category_name(), descriptor.category_color()),
        forall|other: Descriptor| #[trigger]
            is_registered(entries, other) ==> {
                &&& is_registered(register(entries, descriptor), other)
                &&& category_position(
                    register(entries, descriptor),
                    other.category_name(),
                    other.category_color(),
                ) == category_position(entries, other.category_name(), other.category_color())
                &&& subcategory_index_of(register(entries, descriptor), other)
                    == subcategory_index_of(entries, other)
            },
{
    let name = descriptor.category_name();
    let color = descriptor.category_color();
    let with_category = register_category(entries, descriptor);
    let after = register(entries, descriptor);
    let at = category_position(with_category, name, color);
    lemma_first_index(entries, is_category(name, color));
    lemma_first_index_is(
        with_category,
        is_category(name, color),
        category_position(entries, name, color),
    );
    assert forall|k: int| 0 <= k < after.len() implies (#[trigger] after[k]).name
        == with_category[k].name && after[k].color == with_category[k].color
        && with_category[k].subcategories.len() <= after[k].subcategories.len()
        && after[k].subcategories.len() >= 1 by {}
    lemma_same_categories(with_category, after, name, color);
    match descriptor {
        Descriptor::Category { .. } => {},
        Descriptor::Subcategory { subcategory, .. } => {
            let known = with_category[at].subcategories;
            lemma_first_index(known.skip(1), is_named(subcategory));
            if subcategory_position(known, subcategory) >= known.len() {
                let grown = known.push(subcategory);
                assert(grown.skip(1) == known.skip(1).push(subcategory));
                lemma_first_index_is(grown.skip(1), is_named(subcategory), known.len() - 1);
            }
        },
    }
    assert forall|other: Descriptor| #[trigger] is_registered(entries, other) implies {
        &&& is_registered(after, other)
        &&& category_position(after, other.category_name(), other.category_color())
            == category_position(entries, other.category_name(), other.category_color())
        &&& subcategory_index_of(after, other) == subcategory_index_of(entries, other)
    } by {
        let other_name = other.category_name();
        let other_color = other.category_color();
        let other_at = category_position(entries, other_name, other_color);
        lemma_first_index(entries, is_category(other_name, other_color));
        lemma_first_index_is(with_category, is_category(other_name, other_color), other_at);
        lemma_same_categories(with_category, after, other_name, other_color);
        match other {
            Descriptor::Category { .. } => {},
            Descriptor::Subcategory { subcategory: wanted, .. } => {
                let before = entries[other_at].subcategories;
                let grown = after[other_at].subcategories;
                let found = first_index(before.skip(1), is_named(wanted));
                lemma_first_index(before.skip(1), is_named(wanted));
                assert forall|k: int| 0 <= k < found implies !is_named(wanted)(
                    #[trigger] grown.skip(1)[k],
                ) by {}
                lemma_first_index_is(grown.skip(1), is_named(wanted), found);
            },
        }
    }
}

/// Entries with the same names and colours, one by one, hold each category at
/// the same position.
proof fn lemma_same_categories(
    left: Seq<CategoryEntry>,
    right: Seq<CategoryEntry>,
    name: Seq<char>,
    color: CategoryColor,
)
    requires
        left.len() == right.len(),
        forall|k: int|
            0 <= k < right.len() ==> (#[trigger] right[k]).name == left[k].name && right[k].color
                == left[k].color,
    ensures
        category_position(right, name, color) == category_position(left, name, color),
{
    lemma_first_index(left, is_category(name, color));
    let at = category_position(left, name, color);
    assert forall|k: int| 0 <= k < at implies !is_category(name, color)(#[trigger] right[k]) by {}
    lemma_first_index_is(right, is_category(name, color), at);
}

/// The descriptor's category stands where it stood or, when it is new, behind
/// all others.
pub proof fn lemma_register_category(entries: Seq<CategoryEntry>, descriptor: Descriptor)
    ensures
        0 <= category_position(
            entries,
            descriptor.category_name(),
            descriptor.category_color(),
        ) <= entries.len(),
        category_position(
            register_category(entries, descriptor),
            descriptor.category_name(),
            descriptor.category_color(),
        ) == category_position(entries, descriptor.category_name(), descriptor.category_color()),
        category_position(entries, descriptor.category_name(), descriptor.category_color())
            < register_category(entries, descriptor).len(),
{
    let wanted = is_category(descriptor.category_name(), descriptor.category_color());
    lemma_first_index(entries, wanted);
    lemma_first_index_is(
        register_category(entries, descriptor),
        wanted,
        first_index(entries, wanted),
    );
}

/// A subcategory that is new to its category stands behind the subcategories
/// that the category had.
pub proof fn lemma_register_subcategory(entries: Seq<CategoryEntry>, descriptor: Descriptor)
    requires
        entries_started(entries),
        descriptor is Subcategory,
        !is_registered(entries, descriptor),
    ensures
        ({
            let with_category = register_category(entries, descriptor);
            let at = category_position(
                with_category,
                descriptor.category_name(),
                descriptor.category_color(),
            );
            let known = with_category[at].subcategories;
            &&& subcategory_position(known, descriptor->subcategory) >= known.len()
            &&& register(entries, descriptor) == with_category.update(
                at,
                with_subcategory(with_category[at], descriptor->subcategory),
            )
            &&& subcategory_index_of(register(entries, descriptor), descriptor) == known.len()
        }),
{
    let name = descriptor.category_name();
    let color = descriptor.category_color();
    let subcategory = descriptor->subcategory;
    let with_category = register_category(entries, descriptor);
    let at = category_position(with_category, name, color);
    let known = with_category[at].subcategories;
    let after = register(entries, descriptor);
    lemma_register_category(entries, descriptor);
    lemma_first_index(known.skip(1), is_named(subcategory));
    assert forall|k: int| 0 <= k < after.len() implies (#[trigger] after[k]).name
        == with_category[k].name && after[k].color == with_category[k].color by {}
    lemma_same_categories(with_category, after, name, color);
    let grown = known.push(subcategory);
    assert(grown.skip(1) == known.skip(1).push(subcategory));
    lemma_first_index_is(grown.skip(1), is_named(subcategory), known.len() - 1);
}

/// Some descriptor names the category of `entry`.
spec fn category_named(descriptors: Seq<Descriptor>, entry: CategoryEntry) -> bool {
    exists|k: int|
        0 <= k < descriptors.len() && (#[trigger] descriptors[k]).category_name() == entry.name
            && descriptors[k].category_color() == entry.color
}

/// Some descriptor names the subcategory of `entry` at `index`.
spec fn subcategory_named(
    descriptors: Seq<Descriptor>,
    entry: CategoryEntry,
    index: int,
) -> bool {
    exists|k: int|
        0 <= k < descriptors.len() && #[trigger] descriptors[k] == (Descriptor::Subcategory {
            name: entry.name,
            color: entry.color,
            subcategory: entry.subcategories[index],
        })
}

/// The shape of the entries after a descriptor has been registered: earlier
/// entries keep their name and colour, a new entry has the descriptor's, and
/// an entry's subcategories are those it had (those a category starts with,
/// for a new entry), with at most the descriptor's subcategory behind them.
pub proof fn lemma_register_shape(entries: Seq<CategoryEntry>, descriptor: Descriptor, c: int)
    requires
        0 <= c < register(entries, descriptor).len(),
    ensures
        ({
            let after = register(entries, descriptor)[c];
            let known = if c < entries.len() {
                entries[c].subcategories
            } else {
                seq!["Other"@]
            };
            &&& c < entries.len() ==> after.name == entries[c].name && after.color
                == entries[c].color
            &&& c >= entries.len() ==> after.name == descriptor.category_name() && after.color
                == descriptor.category_color()
            &&& after.subcategories == known || (descriptor == Descriptor::Subcategory {
                name: after.name,
                color: after.color,
                subcategory: after.subcategories.last(),
            } && after.subcategories == known.push(after.subcategories.last()))
        }),
{
    let name = descriptor.category_name();
    let color = descriptor.category_color();
    let with_category = register_category(entries, descriptor);
    lemma_first_index(entries, is_category(name, color));
    lemma_first_index(with_category, is_category(name, color));
    lemma_first_index_is(
        with_category,
        is_category(name, color),
        category_position(entries, name, color),
    );
}

/// What a table registers, starting from nothing, holds every descriptor of
/// the table: no more categories than the table has rules, and in no category
/// more subcategories than that beside the one it starts with.
pub proof fn lemma_register_all(descriptors: Seq<Descriptor>)
    ensures
        ({
            let entries = register_all(Seq::empty(), descriptors);
            &&& entries_started(entries)
            &&& entries.len() <= descriptors.len()
            &&& forall|k: int|
                0 <= k < descriptors.len() ==> is_registered(entries, #[trigger] descriptors[k])
            &&& forall|c: int|
                0 <= c < entries.len() ==> (#[trigger] entries[c]).subcategories.len() <= 1
                    + descriptors.len()
        }),
    decreases descriptors.len(),
{
    let entries = register_all(Seq::empty(), descriptors);
    if descriptors.len() > 0 {
        let earlier = descriptors.drop_last();
        let last = descriptors.last();
        let before = register_all(Seq::empty(), earlier);
        lemma_register_all(earlier);
        lemma_register(before, last);
        assert forall|k: int| 0 <= k < descriptors.len() implies is_registered(
            entries,
            #[trigger] descriptors[k],
        ) by {
            if k < earlier.len() {
                assert(descriptors[k] == earlier[k]);
            }
        }
        assert forall|c: int| 0 <= c < entries.len() implies (
        #[trigger] entries[c]).subcategories.len() <= 1 + descriptors.len() by {
            lemma_register_shape(before, last, c);
        }
    }
}

/// What a table registers, starting from nothing, it registers for one of its
/// descriptors: every category is named by some descriptor, and so is every
/// subcategory but the one a category starts with.
proof fn lemma_register_all_named(descriptors: Seq<Descriptor>)
    ensures
        ({
            let entries = register_all(Seq::empty(), descriptors);
            &&& forall|c: int|
                0 <= c < entries.len() ==> category_named(descriptors, #[trigger] entries[c])
            &&& forall|c: int, j: int|
                0 <= c < entries.len() && 1 <= j < entries[c].subcategories.len()
                    ==> #[trigger] subcategory_named(descriptors, entries[c], j)
        }),
    decreases descriptors.len(),
{
    let entries = register_all(Seq::empty(), descriptors);
    if descriptors.len() > 0 {
        let earlier = descriptors.drop_last();
        let last = descriptors.last();
        let before = register_all(Seq::empty(), earlier);
        lemma_register_all_named(earlier);
        assert forall|c: int| 0 <= c < entries.len() implies category_named(
            descriptors,
            #[trigger] entries[c],
        ) by {
            lemma_register_shape(before, last, c);
            if c < before.len() {
                assert(category_named(earlier, before[c]));
            }
        }
        assert forall|c: int, j: int|
            0 <= c < entries.len() && 1 <= j < entries[c].subcategories.len()
            implies #[trigger] subcategory_named(descriptors, entries[c], j) by {
            lemma_register_shape(before, last, c);
            if c < before.len() && j < before[c].subcategories.len() {
                assert(subcategory_named(earlier, before[c], j));
            }
        }
    }
}

/// A category that no descriptor of a table names is not among what the table
/// registers.
pub proof fn lemma_category_unnamed(
    descriptors: Seq<Descriptor>,
    name: Seq<char>,
    color: CategoryColor,
)
    requires
        forall|k: int|
            0 <= k < descriptors.len() ==> !((#[trigger] descriptors[k]).category_name() == name
                && descriptors[k].category_color() == color),
    ensures
        category_position(register_all(Seq::empty(), descriptors), name, color) == register_all(
            Seq::empty(),
            descriptors,
        ).len(),
{
    let entries = register_all(Seq::empty(), descriptors);
    let at = category_position(entries, name, color);
    lemma_first_index(entries, is_category(name, color));
    lemma_register_all_named(descriptors);
    if at < entries.len() {
        assert(category_named(descriptors, entries[at]));
    }
}

/// A subcategory descriptor that is not in a table is not among what the
/// table registers.
pub proof fn lemma_subcategory_unnamed(descriptors: Seq<Descriptor>, descriptor: Descriptor)
    requires
        descriptor is Subcategory,
        forall|k: int| 0 <= k < descriptors.len() ==> #[trigger] descriptors[k] != descriptor,
    ensures
        !is_registered(register_all(Seq::empty(), descriptors), descriptor),
{
    let entries = register_all(Seq::empty(), descriptors);
    let name = descriptor.category_name();
    let color = descriptor.category_color();
    let at = category_position(entries, name, color);
    lemma_first_index(entries, is_category(name, color));
    lemma_register_all_named(descriptors);
    if is_registered(entries, descriptor) {
        let known = entries[at].subcategories;
        let found = subcategory_position(known, descriptor->subcategory);
        lemma_first_index(known.skip(1), is_named(descriptor->subcategory));
        assert(known.skip(1)[found - 1] == known[found]);
        assert(subcategory_named(descriptors, entries[at], found));
    }
}

} // verus!
