//! Category descriptors, and the table of rules that classifies job names.

use crate::tokens::token_texts;
use vstd::prelude::*;

verus! {

/// The display colour of a category. The matching logic never looks at it; it
/// only tells two categories of the same name apart.
#[derive(Clone, Copy, Debug, PartialEq, Eq, Structural)]
pub enum CategoryColor {
    Transparent,
    LightBlue,
    Red,
    LightRed,
    Orange,
    Blue,
    Green,
    Purple,
    Yellow,
    Brown,
    Magenta,
    LightGreen,
    Gray,
    DarkGray,
}

/// What a rule assigns to the job names it matches: a top-level category, or a
/// subcategory nested under one.
#[derive(Clone, Copy, Debug)]
pub enum CategoryOrSubcategory {
    /// Category name and colour.
    Category(&'static str, CategoryColor),
    /// Category name, category colour and subcategory name.
    Subcategory(&'static str, CategoryColor, &'static str),
}

/// The content of a descriptor. Two descriptors with the same content stand
/// for the same label.
pub enum Descriptor {
    Category { name: Seq<char>, color: CategoryColor },
    Subcategory { name: Seq<char>, color: CategoryColor, subcategory: Seq<char> },
}

impl Descriptor {
    /// The name of the category, for either kind.
    pub open spec fn category_name(self) -> Seq<char> {
        match self {
            Descriptor::Category { name, .. } => name,
            Descriptor::Subcategory { name, .. } => name,
        }
    }

    /// The colour of the category, for either kind.
    pub open spec fn category_color(self) -> CategoryColor {
        match self {
            Descriptor::Category { color, .. } => color,
            Descriptor::Subcategory { color, .. } => color,
        }
    }
}

impl View for CategoryOrSubcategory {
    type V = Descriptor;

    open spec fn view(&self) -> Descriptor {
        match *self {
            CategoryOrSubcategory::Category(name, color) => Descriptor::Category {
                name: name@,
                color,
            },
            CategoryOrSubcategory::Subcategory(name, color, subcategory) => {
                Descriptor::Subcategory { name: name@, color, subcategory: subcategory@ }
            },
        }
    }
}

/// One rule of a table: the fragments to look for, and the label to assign.
pub type CategoryRule = (&'static [&'static str], CategoryOrSubcategory);

/// The fragment sequences of a rule table, in table order.
pub open spec fn rule_patterns(rules: Seq<CategoryRule>) -> Seq<Seq<Seq<char>>> {
    Seq::new(rules.len(), |i: int| token_texts(rules[i].0@))
}

/// The descriptors of a rule table, in table order.
pub open spec fn rule_descriptors(rules: Seq<CategoryRule>) -> Seq<Descriptor> {
    Seq::new(rules.len(), |i: int| rules[i].1@)
}

/// A subcategory of the yellow category "Tp6".
pub open spec fn tp6(subcategory: Seq<char>) -> Descriptor {
    Descriptor::Subcategory { name: "Tp6"@, color: CategoryColor::Yellow, subcategory }
}

/// A subcategory of the red category "Benchmark".
pub open spec fn benchmark(subcategory: Seq<char>) -> Descriptor {
    Descriptor::Subcategory { name: "Benchmark"@, color: CategoryColor::Red, subcategory }
}

/// The fragment sequences of `categories`, in table order.
pub open spec fn category_patterns() -> Seq<Seq<Seq<char>>> {
    seq![
        seq!["tp6m"@, "essential"@, "fenix"@],
        seq!["tp6m"@, "fenix"@],
        seq!["tp6m"@, "webextensions"@, "fenix"@],
        seq!["tp6m"@, "essential"@, "chrome"@],
        seq!["tp6m"@, "chrome"@],
        seq!["tp6m"@],
        seq!["tp6"@],
        seq!["startup"@],
        seq!["resource"@],
        seq!["power"@],
        seq!["speedometer"@],
        seq!["speedometer3"@],
        seq!["jetstream2"@],
        seq!["jetstream3"@],
        seq!["benchmark"@],
    ]
}

/// The descriptors of `categories`, in table order.
pub open spec fn category_descriptors() -> Seq<Descriptor> {
    seq![
        tp6("Fenix (essential)"@),
        tp6("Fenix (non-essential)"@),
        tp6("Fenix (WebExtensions)"@),
        tp6("Chrome (essential)"@),
        tp6("Chrome (non-essential)"@),
        Descriptor::Category { name: "Tp6"@, color: CategoryColor::Yellow },
        Descriptor::Category { name: "Tp6"@, color: CategoryColor::Yellow },
        Descriptor::Category { name: "Startup"@, color: CategoryColor::Blue },
        Descriptor::Category { name: "Resource"@, color: CategoryColor::Purple },
        Descriptor::Category { name: "Resource"@, color: CategoryColor::Purple },
        benchmark("Speedometer 2"@),
        benchmark("Speedometer 3"@),
        benchmark("Jetstream 2"@),
        benchmark("Jetstream 3"@),
        Descriptor::Category { name: "Benchmark"@, color: CategoryColor::Red },
    ]
}

/// The rule table for performance-test job names. Its order matters: the
/// rules for the narrower fragment sequences stand before the broader ones
/// that would match the same names.
pub fn categories() -> (rules: &'static [CategoryRule])
    ensures
        rule_patterns(rules@) == category_patterns(),
        rule_descriptors(rules@) == category_descriptors(),
{
    let rules: &'static [CategoryRule] = &[
        (
            &["tp6m", "essential", "fenix"],
            CategoryOrSubcategory::Subcategory("Tp6", CategoryColor::Yellow, "Fenix (essential)"),
        ),
        (
            &["tp6m", "fenix"],
            CategoryOrSubcategory::Subcategory(
                "Tp6",
                CategoryColor::Yellow,
                "Fenix (non-essential)",
            ),
        ),
        (
            &["tp6m", "webextensions", "fenix"],
            CategoryOrSubcategory::Subcategory(
                "Tp6",
                CategoryColor::Yellow,
                "Fenix (WebExtensions)",
            ),
        ),
        (
            &["tp6m", "essential", "chrome"],
            CategoryOrSubcategory::Subcategory("Tp6", CategoryColor::Yellow, "Chrome (essential)"),
        ),
        (
            &["tp6m", "chrome"],
            CategoryOrSubcategory::Subcategory(
                "Tp6",
                CategoryColor::Yellow,
                "Chrome (non-essential)",
            ),
        ),
        (&["tp6m"], CategoryOrSubcategory::Category("Tp6", CategoryColor::Yellow)),
        (&["tp6"], CategoryOrSubcategory::Category("Tp6", CategoryColor::Yellow)),
        (&["startup"], CategoryOrSubcategory::Category("Startup", CategoryColor::Blue)),
        (&["resource"], CategoryOrSubcategory::Category("Resource", CategoryColor::Purple)),
        (&["power"], CategoryOrSubcategory::Category("Resource", CategoryColor::Purple)),
        (
            &["speedometer"],
            CategoryOrSubcategory::Subcategory("Benchmark", CategoryColor::Red, "Speedometer 2"),
        ),
        (
            &["speedometer3"],
            CategoryOrSubcategory::Subcategory("Benchmark", CategoryColor::Red, "Speedometer 3"),
        ),
        (
            &["jetstream2"],
            CategoryOrSubcategory::Subcategory("Benchmark", CategoryColor::Red, "Jetstream 2"),
        ),
        (
            &["jetstream3"],
            CategoryOrSubcategory::Subcategory("Benchmark", CategoryColor::Red, "Jetstream 3"),
        ),
        (&["benchmark"], CategoryOrSubcategory::Category("Benchmark", CategoryColor::Red)),
    ];
    proof {
        assert(rule_patterns(rules@) =~~= category_patterns());
    }
    rules
}

} // verus!
