//! The resolver that classifies a tokenized job name by an ordered rule table.

use crate::categories::{
    rule_descriptors, rule_patterns, CategoryColor, CategoryOrSubcategory, CategoryRule, Descriptor,
};
use crate::registry::{
    category_position, is_category, is_named, is_registered, lemma_category_unnamed,
    lemma_first_index, lemma_register, lemma_register_all, lemma_register_category,
    lemma_register_subcategory, lemma_subcategory_unnamed, new_entry, register, register_all,
    subcategory_index_of,
};
use crate::sink::{
    add_category, add_subcategory, category_index, category_pair, other_category,
    pair_category_index, pair_subcategory_index, profile_categories, same_samples, same_stacks,
    same_strings, same_threads, CategoryEntry,
};
use crate::tokens::token_texts;
use fxprof_processed_profile::{CategoryHandle, CategoryPairHandle, Profile};
use vstd::prelude::*;

verus! {

/// The window of `tokens` that starts at `at` and is as long as `pattern`
/// exists and equals `pattern`, token by token.
pub open spec fn matches_at(tokens: Seq<Seq<char>>, pattern: Seq<Seq<char>>, at: int) -> bool {
    &&& 0 <= at
    &&& at + pattern.len() <= tokens.len()
    &&& tokens.subrange(at, at + pattern.len()) == pattern
}

/// Some window of `tokens` equals `pattern`. An empty pattern occurs in every
/// token sequence; a pattern longer than `tokens` occurs nowhere.
pub open spec fn occurs_in(pattern: Seq<Seq<char>>, tokens: Seq<Seq<char>>) -> bool {
    exists|at: int| matches_at(tokens, pattern, at)
}

/// The index of the first pattern, at or after `from`, that occurs in `tokens`.
pub open spec fn first_match_from(
    patterns: Seq<Seq<Seq<char>>>,
    tokens: Seq<Seq<char>>,
    from: int,
) -> Option<int>
    decreases patterns.len() - from,
{
    if from < 0 || from >= patterns.len() {
        None
    } else if occurs_in(patterns[from], tokens) {
        Some(from)
    } else {
        first_match_from(patterns, tokens, from + 1)
    }
}

/// The index of the first pattern that occurs in `tokens`, if any does.
pub open spec fn first_match(patterns: Seq<Seq<Seq<char>>>, tokens: Seq<Seq<char>>) -> Option<
    int,
> {
    first_match_from(patterns, tokens, 0)
}

/// `first_match_from` answers with the least index from `from` on whose
/// pattern occurs, and with `None` exactly when none does.
pub proof fn lemma_first_match_from(
    patterns: Seq<Seq<Seq<char>>>,
    tokens: Seq<Seq<char>>,
    from: int,
)
    requires
        0 <= from,
    ensures
        match first_match_from(patterns, tokens, from) {
            Some(found) => {
                &&& from <= found < patterns.len()
                &&& occurs_in(patterns[found], tokens)
                &&& forall|earlier: int|
                    from <= earlier < found ==> !occurs_in(#[trigger] patterns[earlier], tokens)
            },
            None => forall|any: int|
                from <= any < patterns.len() ==> !occurs_in(#[trigger] patterns[any], tokens),
        },
    decreases patterns.len() - from,
{
    if from < patterns.len() && !occurs_in(patterns[from], tokens) {
        lemma_first_match_from(patterns, tokens, from + 1);
    }
}

/// Rule priority: `first_match` answers with the least index whose pattern
/// occurs in `tokens`, whatever the lengths of the patterns, and with `None`
/// exactly when no pattern occurs.
pub proof fn lemma_first_match(patterns: Seq<Seq<Seq<char>>>, tokens: Seq<Seq<char>>)
    ensures
        match first_match(patterns, tokens) {
            Some(found) => {
                &&& 0 <= found < patterns.len()
                &&& occurs_in(patterns[found], tokens)
                &&& forall|earlier: int|
                    0 <= earlier < found ==> !occurs_in(#[trigger] patterns[earlier], tokens)
            },
            None => forall|any: int|
                0 <= any < patterns.len() ==> !occurs_in(#[trigger] patterns[any], tokens),
        },
{
    lemma_first_match_from(patterns, tokens, 0);
}

/// The first pattern that occurs decides: where the pattern at `rule` occurs
/// in `tokens` and none before it does, `first_match` is `rule`.
pub proof fn lemma_first_match_is(
    patterns: Seq<Seq<Seq<char>>>,
    tokens: Seq<Seq<char>>,
    rule: int,
)
    requires
        0 <= rule < patterns.len(),
        occurs_in(patterns[rule], tokens),
        forall|earlier: int|
            0 <= earlier < rule ==> !occurs_in(#[trigger] patterns[earlier], tokens),
    ensures
        first_match(patterns, tokens) == Some(rule),
{
    lemma_first_match(patterns, tokens);
}

/// `str::eq`: two string slices are equal when they hold the same characters.
#[verifier::external_body]
pub(crate) fn same_text(left: &str, right: &str) -> (same: bool)
    ensures
        same == (left@ == right@),
{
    left == right
}

/// Tells whether the window of `tokens` at `at` equals `pattern`.
fn window_matches(tokens: &[&str], pattern: &[&str], at: usize) -> (matches: bool)
    ensures
        matches == matches_at(token_texts(tokens@), token_texts(pattern@), at as int),
{
    let len = tokens.len();
    if at > len || pattern.len() > len - at {
        return false;
    }
    let ghost window = token_texts(tokens@).subrange(at as int, at + pattern@.len());
    let mut i: usize = 0;
    while i < pattern.len()
        invariant
            i <= pattern@.len(),
            at + pattern@.len() <= tokens@.len() == len,
            window == token_texts(tokens@).subrange(at as int, at + pattern@.len()),
            forall|k: int| 0 <= k < i ==> window[k] == #[trigger] token_texts(pattern@)[k],
        decreases pattern@.len() - i,
    {
        if !same_text(tokens[at + i], pattern[i]) {
            proof {
                assert(window[i as int] != token_texts(pattern@)[i as int]);
            }
            return false;
        }
        i += 1;
    }
    proof {
        assert(window =~= token_texts(pattern@));
    }
    true
}

/// Tells whether `pattern` occurs in `tokens`, trying the windows from left to
/// right.
fn pattern_occurs(tokens: &[&str], pattern: &[&str]) -> (occurs: bool)
    ensures
        occurs == occurs_in(token_texts(pattern@), token_texts(tokens@)),
{
    if pattern.len() > tokens.len() {
        return false;
    }
    let last = tokens.len() - pattern.len();
    let mut at: usize = 0;
    loop
        invariant
            last == tokens@.len() - pattern@.len(),
            at <= last,
            forall|k: int|
                0 <= k < at ==> !#[trigger] matches_at(
                    token_texts(tokens@),
                    token_texts(pattern@),
                    k,
                ),
        decreases last - at,
    {
        if window_matches(tokens, pattern, at) {
            return true;
        }
        if at == last {
            return false;
        }
        at += 1;
    }
}

/// The pair points, among `categories`, at a category with the descriptor's
/// name and colour, and at the subcategory that the descriptor names: the one
/// at index 0 for a plain category.
pub open spec fn designates(
    categories: Seq<CategoryEntry>,
    pair: CategoryPairHandle,
    descriptor: Descriptor,
) -> bool {
    let category = pair_category_index(pair) as int;
    let subcategory = pair_subcategory_index(pair) as int;
    &&& category < categories.len()
    &&& subcategory < categories[category].subcategories.len()
    &&& categories[category].name == descriptor.category_name()
    &&& categories[category].color == descriptor.category_color()
    &&& match descriptor {
        Descriptor::Category { .. } => subcategory == 0,
        Descriptor::Subcategory { subcategory: name, .. } => {
            categories[category].subcategories[subcategory] == name
        },
    }
}

/// One rule of a matcher: the fragments it looks for, the descriptor it was
/// written with, and the handles that the profile gave for that descriptor.
struct MatcherRule {
    fragments: &'static [&'static str],
    descriptor: CategoryOrSubcategory,
    category: CategoryHandle,
    handle: CategoryPairHandle,
}

impl MatcherRule {
    /// The rule's handles hold the indices of its descriptor, where
    /// `registered` stands in a profile's categories from index `base` on.
    spec fn placed(self, base: int, registered: Seq<CategoryEntry>) -> bool {
        &&& category_index(self.category) == base + category_position(
            registered,
            self.descriptor@.category_name(),
            self.descriptor@.category_color(),
        )
        &&& pair_category_index(self.handle) == category_index(self.category)
        &&& pair_subcategory_index(self.handle) == subcategory_index_of(
            registered,
            self.descriptor@,
        )
    }
}

/// Rules with the same descriptor share their pair handle, and rules with the
/// same category name and colour share their category handle.
spec fn handles_shared(rules: Seq<MatcherRule>) -> bool {
    forall|a: int, b: int|
        #![trigger rules[a], rules[b]]
        0 <= a < rules.len() && 0 <= b < rules.len() ==> {
            &&& rules[a].descriptor@ == rules[b].descriptor@ ==> rules[a].handle == rules[b].handle
            &&& rules[a].descriptor@.category_name() == rules[b].descriptor@.category_name()
                && rules[a].descriptor@.category_color() == rules[b].descriptor@.category_color()
                ==> rules[a].category == rules[b].category
        }
}

/// Tells whether two descriptors have the same content.
fn same_descriptor(left: &CategoryOrSubcategory, right: &CategoryOrSubcategory) -> (same: bool)
    ensures
        same == (left@ == right@),
{
    match (*left, *right) {
        (
            CategoryOrSubcategory::Category(left_name, left_color),
            CategoryOrSubcategory::Category(right_name, right_color),
        ) => same_text(left_name, right_name) && left_color == right_color,
        (
            CategoryOrSubcategory::Subcategory(left_name, left_color, left_sub),
            CategoryOrSubcategory::Subcategory(right_name, right_color, right_sub),
        ) => same_text(left_name, right_name) && left_color == right_color && same_text(
            left_sub,
            right_sub,
        ),
        _ => false,
    }
}

/// The name and colour of the category that a descriptor belongs to.
fn category_of(descriptor: &CategoryOrSubcategory) -> (category: (&'static str, CategoryColor))
    ensures
        category.0@ == descriptor@.category_name(),
        category.1 == descriptor@.category_color(),
{
    match *descriptor {
        CategoryOrSubcategory::Category(name, color) => (name, color),
        CategoryOrSubcategory::Subcategory(name, color, _) => (name, color),
    }
}

/// Finds a rule with the same descriptor.
fn find_descriptor(rules: &Vec<MatcherRule>, descriptor: &CategoryOrSubcategory) -> (found: Option<
    usize,
>)
    ensures
        match found {
            Some(at) => at < rules@.len() && rules@[at as int].descriptor@ == descriptor@,
            None => forall|k: int|
                0 <= k < rules@.len() ==> (#[trigger] rules@[k]).descriptor@ != descriptor@,
        },
{
    let mut at: usize = 0;
    while at < rules.len()
        invariant
            at <= rules@.len(),
            forall|k: int| 0 <= k < at ==> (#[trigger] rules@[k]).descriptor@ != descriptor@,
        decreases rules@.len() - at,
    {
        if same_descriptor(&rules[at].descriptor, descriptor) {
            return Some(at);
        }
        at += 1;
    }
    None
}

/// Finds a rule whose descriptor belongs to the category of that name and
/// colour.
fn find_category(rules: &Vec<MatcherRule>, name: &str, color: CategoryColor) -> (found: Option<
    usize,
>)
    ensures
        match found {
            Some(at) => {
                &&& at < rules@.len()
                &&& rules@[at as int].descriptor@.category_name() == name@
                &&& rules@[at as int].descriptor@.category_color() == color
            },
            None => forall|k: int|
                0 <= k < rules@.len() ==> !((#[trigger] rules@[k]).descriptor@.category_name()
                    == name@ && rules@[k].descriptor@.category_color() == color),
        },
{
    let mut at: usize = 0;
    while at < rules.len()
        invariant
            at <= rules@.len(),
            forall|k: int|
                0 <= k < at ==> !((#[trigger] rules@[k]).descriptor@.category_name() == name@
                    && rules@[k].descriptor@.category_color() == color),
        decreases rules@.len() - at,
    {
        let (rule_name, rule_color) = category_of(&rules[at].descriptor);
        if same_text(rule_name, name) && rule_color == color {
            return Some(at);
        }
        at += 1;
    }
    None
}

/// An ordered rule table whose descriptors have been turned into category
/// handles of one profile.
pub struct CategoryMatcher {
    matchers: Vec<MatcherRule>,
    fallback: CategoryPairHandle,
}

impl CategoryMatcher {
    /// The fragment sequences of the rules, in table order.
    pub closed spec fn patterns(&self) -> Seq<Seq<Seq<char>>> {
        Seq::new(self.matchers@.len(), |i: int| token_texts(self.matchers@[i].fragments@))
    }

    /// The descriptors of the rules, in table order.
    pub closed spec fn descriptors(&self) -> Seq<Descriptor> {
        Seq::new(self.matchers@.len(), |i: int| self.matchers@[i].descriptor@)
    }

    /// The handle that each rule resolves to, in table order.
    pub closed spec fn handles(&self) -> Seq<CategoryPairHandle> {
        Seq::new(self.matchers@.len(), |i: int| self.matchers@[i].handle)
    }

    /// The handle for names that no rule matches.
    pub closed spec fn fallback(&self) -> CategoryPairHandle {
        self.fallback
    }

    /// Rules with equal descriptors resolve to one and the same handle.
    pub closed spec fn wf(&self) -> bool {
        handles_shared(self.matchers@)
    }

    /// The rules stand registered among `categories` from index `base` on:
    /// what stands there is what the table registers, in the order in which
    /// the table first names it, and every rule's handle holds the indices of
    /// the rule's descriptor. The fallback holds the indices of the first
    /// subcategory of the category at index 0.
    pub open spec fn placed(&self, base: int, categories: Seq<CategoryEntry>) -> bool {
        let registered = register_all(Seq::empty(), self.descriptors());
        &&& 0 <= base <= categories.len()
        &&& categories.skip(base) == registered
        &&& self.handles().len() == self.descriptors().len()
        &&& forall|i: int|
            0 <= i < self.handles().len() ==> {
                &&& pair_category_index(#[trigger] self.handles()[i]) == base + category_position(
                    registered,
                    self.descriptors()[i].category_name(),
                    self.descriptors()[i].category_color(),
                )
                &&& pair_subcategory_index(self.handles()[i]) == subcategory_index_of(
                    registered,
                    self.descriptors()[i],
                )
            }
        &&& pair_category_index(self.fallback()) == 0
        &&& pair_subcategory_index(self.fallback()) == 0
    }

    /// The handle that `tokens` resolve to: that of the first rule, in table
    /// order, whose fragments occur in `tokens`, and the fallback when no rule
    /// matches.
    pub open spec fn resolve(&self, tokens: Seq<Seq<char>>) -> CategoryPairHandle {
        match first_match(self.patterns(), tokens) {
            Some(rule) => self.handles()[rule],
            None => self.fallback(),
        }
    }

    /// Builds a matcher from a rule table, registering the category of every
    /// rule with `profile` up front. The profile gives out a new handle on
    /// every request, so the matcher asks once for each distinct category and
    /// once for each distinct subcategory, and lets the rules that name the
    /// same one share the handle.
    ///
    /// Rules with descriptors of the same content get one and the same handle,
    /// however far apart they stand in the table.
    ///
    /// The profile keeps category and subcategory indices in 16 bits: the
    /// table must leave room for them.
    pub fn new(profile: &mut Profile, matchers: &[CategoryRule]) -> (matcher: Self)
        requires
            matchers@.len() <= 0xFFFF,
            profile_categories(*old(profile)).len() + matchers@.len() <= 0x1_0000,
        ensures
            matcher.wf(),
            matcher.patterns() == rule_patterns(matchers@),
            matcher.descriptors() == rule_descriptors(matchers@),
            matcher.handles().len() == matchers@.len(),
            forall|first: int, second: int|
                #![trigger matcher.handles()[first], matcher.handles()[second]]
                0 <= first < matchers@.len() && 0 <= second < matchers@.len()
                    && matcher.descriptors()[first] == matcher.descriptors()[second]
                    ==> matcher.handles()[first] == matcher.handles()[second],
            matcher.placed(
                profile_categories(*old(profile)).len() as int,
                profile_categories(*final(profile)),
            ),
            profile_categories(*final(profile)).take(
                profile_categories(*old(profile)).len() as int,
            ) == profile_categories(*old(profile)),
            same_threads(*old(profile), *final(profile)),
            same_strings(*old(profile), *final(profile)),
            same_stacks(*old(profile), *final(profile)),
            same_samples(*old(profile), *final(profile)),
    {
        let fallback = category_pair(other_category());
        let ghost before = profile_categories(*profile);
        let ghost base = before.len() as int;
        let ghost descriptors = rule_descriptors(matchers@);
        let mut rules: Vec<MatcherRule> = Vec::new();
        let mut i: usize = 0;
        proof {
            assert(before + Seq::<CategoryEntry>::empty() =~= before);
        }
        while i < matchers.len()
            invariant
                i <= matchers@.len() <= 0xFFFF,
                base + matchers@.len() <= 0x1_0000,
                base == before.len(),
                before == profile_categories(*old(profile)),
                descriptors == rule_descriptors(matchers@),
                rules@.len() == i,
                forall|k: int|
                    0 <= k < i ==> (#[trigger] rules@[k]).fragments == matchers@[k].0
                        && rules@[k].descriptor == matchers@[k].1,
                profile_categories(*profile) == before + register_all(
                    Seq::empty(),
                    descriptors.take(i as int),
                ),
                forall|k: int|
                    0 <= k < i ==> (#[trigger] rules@[k]).placed(
                        base,
                        register_all(Seq::empty(), descriptors.take(i as int)),
                    ),
                handles_shared(rules@),
                same_threads(*old(profile), *profile),
                same_strings(*old(profile), *profile),
                same_stacks(*old(profile), *profile),
                same_samples(*old(profile), *profile),
            decreases matchers@.len() - i,
        {
            let (fragments, descriptor) = matchers[i];
            let ghost earlier = descriptors.take(i as int);
            let ghost ours = register_all(Seq::empty(), earlier);
            let ghost next = register(ours, descriptor@);
            proof {
                lemma_register_all(earlier);
                lemma_register(ours, descriptor@);
                lemma_register_category(ours, descriptor@);
                assert(descriptors.take(i + 1).drop_last() =~= earlier);
                assert forall|k: int| 0 <= k < i implies earlier[k] == (
                #[trigger] rules@[k]).descriptor@ && is_registered(ours, rules@[k].descriptor@) by {
                    assert(earlier[k] == rules@[k].descriptor@);
                }
            }
            let rule = match find_descriptor(&rules, &descriptor) {
                Some(known) => MatcherRule {
                    fragments,
                    descriptor,
                    category: rules[known].category,
                    handle: rules[known].handle,
                },
                None => {
                    let (name, color) = category_of(&descriptor);
                    let category = match find_category(&rules, name, color) {
                        Some(known) => rules[known].category,
                        None => {
                            proof {
                                assert forall|k: int| 0 <= k < earlier.len() implies !((
                                #[trigger] earlier[k]).category_name() == name@
                                    && earlier[k].category_color() == color) by {
                                    assert(earlier[k] == rules@[k].descriptor@);
                                }
                                lemma_category_unnamed(earlier, name@, color);
                            }
                            let category = add_category(profile, name, color);
                            proof {
                                assert(profile_categories(*profile) =~= before + ours.push(
                                    new_entry(name@, color),
                                ));
                            }
                            category
                        },
                    };
                    match descriptor {
                        CategoryOrSubcategory::Category(_, _) => MatcherRule {
                            fragments,
                            descriptor,
                            category,
                            handle: category_pair(category),
                        },
                        CategoryOrSubcategory::Subcategory(_, _, subcategory) => {
                            proof {
                                assert forall|k: int| 0 <= k < earlier.len() implies
                                    #[trigger] earlier[k] != descriptor@ by {
                                    assert(earlier[k] == rules@[k].descriptor@);
                                }
                                lemma_subcategory_unnamed(earlier, descriptor@);
                                lemma_register_subcategory(ours, descriptor@);
                            }
                            let handle = add_subcategory(profile, category, subcategory);
                            proof {
                                assert(profile_categories(*profile) =~= before + next);
                            }
                            MatcherRule { fragments, descriptor, category, handle }
                        },
                    }
                },
            };
            proof {
                assert(rule.placed(base, next));
                assert forall|k: int| 0 <= k < i implies (#[trigger] rules@[k]).placed(
                    base,
                    next,
                ) by {
                    assert(is_registered(ours, rules@[k].descriptor@));
                }
            }
            rules.push(rule);
            i += 1;
        }
        let matcher = CategoryMatcher { matchers: rules, fallback };
        proof {
            assert forall|first: int, second: int|
                #![trigger matcher.handles()[first], matcher.handles()[second]]
                0 <= first < matchers@.len() && 0 <= second < matchers@.len()
                    && matcher.descriptors()[first] == matcher.descriptors()[second]
                implies matcher.handles()[first] == matcher.handles()[second] by {
                lemma_handles_shared(matcher, first, second);
            }
            let registered = register_all(Seq::empty(), descriptors);
            assert(descriptors.take(i as int) =~= descriptors);
            assert(matcher.patterns() =~= rule_patterns(matchers@));
            assert(matcher.descriptors() =~= descriptors);
            assert(profile_categories(*profile).skip(base) =~= registered);
            assert(profile_categories(*profile).take(base) =~= before);
            assert forall|k: int| 0 <= k < matcher.handles().len() implies {
                &&& pair_category_index(#[trigger] matcher.handles()[k]) == base
                    + category_position(
                    registered,
                    matcher.descriptors()[k].category_name(),
                    matcher.descriptors()[k].category_color(),
                )
                &&& pair_subcategory_index(matcher.handles()[k]) == subcategory_index_of(
                    registered,
                    matcher.descriptors()[k],
                )
            } by {
                assert(matcher.matchers@[k].placed(base, registered));
            }
        }
        matcher
    }

    /// The handle for names that no rule matches.
    pub fn uncategorized(&self) -> (handle: CategoryPairHandle)
        ensures
            handle == self.fallback(),
    {
        self.fallback
    }

    /// Resolves a tokenized job name.
    pub fn get(&self, fragments: &[&str]) -> (handle: CategoryPairHandle)
        ensures
            handle == self.resolve(token_texts(fragments@)),
    {
        let mut i: usize = 0;
        while i < self.matchers.len()
            invariant
                i <= self.matchers@.len(),
                first_match(self.patterns(), token_texts(fragments@)) == first_match_from(
                    self.patterns(),
                    token_texts(fragments@),
                    i as int,
                ),
            decreases self.matchers@.len() - i,
        {
            if pattern_occurs(fragments, self.matchers[i].fragments) {
                return self.matchers[i].handle;
            }
            i += 1;
        }
        self.fallback
    }
}

/// Category identity: rules with the same descriptor have the same handle,
/// however far apart they stand in the table.
pub proof fn lemma_handles_shared(matcher: CategoryMatcher, first: int, second: int)
    requires
        matcher.wf(),
        0 <= first < matcher.descriptors().len(),
        0 <= second < matcher.descriptors().len(),
        matcher.descriptors()[first] == matcher.descriptors()[second],
    ensures
        matcher.handles()[first] == matcher.handles()[second],
{
    assert(matcher.matchers@[first].handle == matcher.matchers@[second].handle);
}

/// Category identity for names: two token sequences that resolve through rules
/// with the same descriptor resolve to the same handle, whichever rules they
/// are.
pub proof fn lemma_same_descriptor_same_handle(
    matcher: CategoryMatcher,
    left: Seq<Seq<char>>,
    right: Seq<Seq<char>>,
)
    requires
        matcher.wf(),
        first_match(matcher.patterns(), left) is Some,
        first_match(matcher.patterns(), right) is Some,
        matcher.descriptors()[first_match(matcher.patterns(), left)->0]
            == matcher.descriptors()[first_match(matcher.patterns(), right)->0],
    ensures
        matcher.resolve(left) == matcher.resolve(right),
{
    lemma_first_match(matcher.patterns(), left);
    lemma_first_match(matcher.patterns(), right);
    lemma_handles_shared(
        matcher,
        first_match(matcher.patterns(), left)->0,
        first_match(matcher.patterns(), right)->0,
    );
}

/// Determinism: resolving depends on the text of the tokens alone, so the
/// same token sequence resolves to the same handle every time.
pub proof fn lemma_resolve_deterministic(matcher: CategoryMatcher, first: &[&str], second: &[&str])
    requires
        token_texts(first@) == token_texts(second@),
    ensures
        matcher.resolve(token_texts(first@)) == matcher.resolve(token_texts(second@)),
{
}

/// A matcher whose rules stand registered among `categories` resolves to
/// handles that point at what the rules say: each rule's handle points at a
/// category with the name and colour of the rule's descriptor, and at the
/// subcategory that the descriptor names.
pub proof fn lemma_placed_designates(
    matcher: CategoryMatcher,
    base: int,
    categories: Seq<CategoryEntry>,
    rule: int,
)
    requires
        matcher.placed(base, categories),
        0 <= rule < matcher.handles().len(),
    ensures
        designates(categories, matcher.handles()[rule], matcher.descriptors()[rule]),
{
    let descriptors = matcher.descriptors();
    let registered = register_all(Seq::empty(), descriptors);
    let descriptor = descriptors[rule];
    lemma_register_all(descriptors);
    let at = category_position(
        registered,
        descriptor.category_name(),
        descriptor.category_color(),
    );
    lemma_first_index(
        registered,
        is_category(descriptor.category_name(), descriptor.category_color()),
    );
    match descriptor {
        Descriptor::Category { .. } => {},
        Descriptor::Subcategory { subcategory, .. } => {
            let known = registered[at].subcategories;
            lemma_first_index(known.skip(1), is_named(subcategory));
        },
    }
}

} // verus!
