//! The profile container that receives the trace, and what this library
//! relies on when it fills one.
//!
//! `fxprof_processed_profile::Profile` is opaque to the verifier. The spec
//! functions without a body below name what a profile holds; the contracts of
//! the wrappers say how each call changes those contents. None of this is
//! proved: it restates what the container's source does.

use crate::categories::CategoryColor;
use fxprof_processed_profile::CategoryColor as SinkColor;
use fxprof_processed_profile::{
    CategoryHandle, CategoryPairHandle, CpuDelta, Frame, FrameFlags, FrameInfo, ProcessHandle,
    Profile, ReferenceTimestamp, SamplingInterval, StackHandle, StringHandle, ThreadHandle,
    Timestamp,
};
use std::time::{Duration, UNIX_EPOCH};
use vstd::prelude::*;

verus! {

#[verifier::external_type_specification]
#[verifier::external_body]
pub struct ExProfile(Profile);

#[verifier::external_type_specification]
#[verifier::external_body]
pub struct ExProcessHandle(ProcessHandle);

#[verifier::external_type_specification]
#[verifier::external_body]
pub struct ExThreadHandle(ThreadHandle);

#[verifier::external_type_specification]
#[verifier::external_body]
pub struct ExStringHandle(StringHandle);

#[verifier::external_type_specification]
#[verifier::external_body]
pub struct ExCategoryHandle(CategoryHandle);

#[verifier::external_type_specification]
#[verifier::external_body]
pub struct ExCategoryPairHandle(CategoryPairHandle);

#[verifier::external_type_specification]
#[verifier::external_body]
pub struct ExStackHandle(StackHandle);

/// One category of a profile: its name, its colour and the names of its
/// subcategories, in the order in which they were added.
pub struct CategoryEntry {
    pub name: Seq<char>,
    pub color: CategoryColor,
    pub subcategories: Seq<Seq<char>>,
}

/// A place in a source file: the interned path of the file, a line and a
/// column, each as far as it is known.
#[derive(Clone, Copy, Debug)]
pub struct SourceLocation {
    pub file_path: Option<StringHandle>,
    pub line: Option<u32>,
    pub col: Option<u32>,
}

/// A frame as it is requested of the profile: the interned label, the
/// category pair the frame is tagged with and, where the frame has one, the
/// place it refers to. Such a frame carries no flags.
#[derive(Clone, Copy, Debug)]
pub struct FrameRequest {
    pub label: StringHandle,
    pub category: CategoryPairHandle,
    pub source: Option<SourceLocation>,
}

/// What the profile keeps of a requested frame: its label and its category
/// pair. This container has no place for a source reference.
pub struct LabelFrame {
    pub label: StringHandle,
    pub category: CategoryPairHandle,
}

/// What the profile keeps of the frames of a requested stack, frame by frame.
pub open spec fn kept_frames(requests: Seq<FrameRequest>) -> Seq<LabelFrame> {
    Seq::new(
        requests.len(),
        |i: int| LabelFrame { label: requests[i].label, category: requests[i].category },
    )
}

/// One process of a profile: its name and its start, in nanoseconds since the
/// profile's reference time.
pub struct ProcessEntry {
    pub name: Seq<char>,
    pub start_nanos: u64,
}

/// One thread of a profile: the process it belongs to, its start, in
/// nanoseconds since the profile's reference time, and whether it is the main
/// thread of its process.
pub struct ThreadEntry {
    pub process: ProcessHandle,
    pub start_nanos: u64,
    pub is_main: bool,
}

/// One row of a thread's sample table.
pub struct Sample {
    /// Nanoseconds since the profile's reference time.
    pub nanos: u64,
    pub stack: Option<StackHandle>,
    /// CPU time attributed to the sample, in microseconds.
    pub cpu_micros: u64,
    pub weight: i32,
}

/// The categories of a profile, in the order of their indices.
pub uninterp spec fn profile_categories(profile: Profile) -> Seq<CategoryEntry>;

/// The index that a category handle holds.
pub uninterp spec fn category_index(category: CategoryHandle) -> nat;

/// The category index that a category pair holds.
pub uninterp spec fn pair_category_index(pair: CategoryPairHandle) -> nat;

/// The subcategory index that a category pair holds.
pub uninterp spec fn pair_subcategory_index(pair: CategoryPairHandle) -> nat;

/// The name of the product that a profile was recorded of.
pub uninterp spec fn profile_product(profile: Profile) -> Seq<char>;

/// The nominal time between two samples of a profile, in nanoseconds.
pub uninterp spec fn profile_interval_nanos(profile: Profile) -> u64;

/// The processes of a profile, each under its handle.
pub uninterp spec fn profile_processes(profile: Profile) -> Map<ProcessHandle, ProcessEntry>;

/// The threads of a profile, each under its handle.
pub uninterp spec fn profile_threads(profile: Profile) -> Map<ThreadHandle, ThreadEntry>;

/// The strings that a profile has interned, each with the handle it answers
/// with.
pub uninterp spec fn interned_strings(profile: Profile) -> Map<Seq<char>, StringHandle>;

/// The stacks of label frames that a profile has interned for a thread,
/// outermost frame first, each with the handle it answers with. With a stack
/// the profile has interned every shorter stack that it starts with.
pub uninterp spec fn interned_stacks(profile: Profile, thread: ThreadHandle) -> Map<
    Seq<LabelFrame>,
    StackHandle,
>;

/// The sample table of a thread, in the order in which the samples were added.
pub uninterp spec fn thread_samples(profile: Profile, thread: ThreadHandle) -> Seq<Sample>;

/// `handle` is what `profile` answers with for some string it has interned.
pub open spec fn is_string_of(profile: Profile, handle: StringHandle) -> bool {
    exists|text: Seq<char>| #[trigger]
        interned_strings(profile).contains_key(text) && interned_strings(profile)[text] == handle
}

/// `stack` is what `profile` answers with for some stack it has interned for
/// `thread`.
pub open spec fn is_stack_of(profile: Profile, thread: ThreadHandle, stack: StackHandle) -> bool {
    exists|frames: Seq<LabelFrame>| #[trigger]
        interned_stacks(profile, thread).contains_key(frames) && interned_stacks(
            profile,
            thread,
        )[frames] == stack
}

/// The stacks that a stack of frames starts with, itself included: its first
/// frame alone, its first two frames, and so on.
pub open spec fn stack_prefixes(frames: Seq<LabelFrame>) -> Set<Seq<LabelFrame>> {
    Set::new(
        |stack: Seq<LabelFrame>|
            exists|k: int| 1 <= k <= frames.len() && stack == #[trigger] frames.take(k),
    )
}

/// Both profiles hold the same categories.
pub open spec fn same_categories(before: Profile, after: Profile) -> bool {
    profile_categories(after) == profile_categories(before)
}

/// Both profiles have the same product name and the same interval.
pub open spec fn same_header(before: Profile, after: Profile) -> bool {
    &&& profile_product(after) == profile_product(before)
    &&& profile_interval_nanos(after) == profile_interval_nanos(before)
}

/// Both profiles have the same header and hold the same processes and
/// threads.
pub open spec fn same_threads(before: Profile, after: Profile) -> bool {
    &&& same_header(before, after)
    &&& profile_processes(after) == profile_processes(before)
    &&& profile_threads(after) == profile_threads(before)
}

/// Both profiles have interned the same strings, under the same handles.
pub open spec fn same_strings(before: Profile, after: Profile) -> bool {
    interned_strings(after) == interned_strings(before)
}

/// Both profiles have interned the same stacks, for every thread.
pub open spec fn same_stacks(before: Profile, after: Profile) -> bool {
    forall|thread: ThreadHandle| #[trigger]
        interned_stacks(after, thread) == interned_stacks(before, thread)
}

/// Both profiles hold the same samples, for every thread.
pub open spec fn same_samples(before: Profile, after: Profile) -> bool {
    forall|thread: ThreadHandle| #[trigger]
        thread_samples(after, thread) == thread_samples(before, thread)
}

/// The category that every new profile starts with.
pub open spec fn other_category_entry() -> CategoryEntry {
    CategoryEntry { name: "Other"@, color: CategoryColor::Gray, subcategories: seq!["Other"@] }
}

/// `SystemTime::elapsed` on `UNIX_EPOCH`: the time since the Unix epoch on
/// this machine's clock, and `None` where the clock reads earlier than the
/// epoch. Nothing is claimed of the value.
#[verifier::external_body]
pub(crate) fn time_since_unix_epoch() -> Option<Duration> {
    UNIX_EPOCH.elapsed().ok()
}

/// `Profile::new`, with the reference time given as the time since the Unix
/// epoch and the sampling interval in milliseconds. A new profile has the
/// product name and the interval it was made with, the latter kept in
/// nanoseconds, and holds the single category "Other" (gray, with the one
/// subcategory "Other"), no process, no thread and no string. The interval is
/// bounded so that its conversion to nanoseconds, which the container
/// performs, fits in 64 bits.
#[verifier::external_body]
pub(crate) fn new_profile(
    product: &str,
    since_unix_epoch: Duration,
    interval_millis: u64,
) -> (profile: Profile)
    requires
        interval_millis * 1_000_000 <= u64::MAX,
    ensures
        profile_product(profile) == product@,
        profile_interval_nanos(profile) == interval_millis * 1_000_000,
        profile_categories(profile) == seq![other_category_entry()],
        profile_processes(profile).dom() == Set::<ProcessHandle>::empty(),
        profile_threads(profile).dom() == Set::<ThreadHandle>::empty(),
        interned_strings(profile).dom() == Set::<Seq<char>>::empty(),
{
    Profile::new(
        product,
        ReferenceTimestamp::from_duration_since_unix_epoch(since_unix_epoch),
        SamplingInterval::from_millis(interval_millis),
    )
}

/// `CategoryHandle::OTHER`: the handle of the category at index 0, which every
/// profile holds.
#[verifier::external_body]
pub(crate) fn other_category() -> (category: CategoryHandle)
    ensures
        category_index(category) == 0,
{
    CategoryHandle::OTHER
}

/// `CategoryPairHandle::from` a category handle: the pair of that category
/// with its subcategory at index 0.
#[verifier::external_body]
pub(crate) fn category_pair(category: CategoryHandle) -> (pair: CategoryPairHandle)
    ensures
        pair_category_index(pair) == category_index(category),
        pair_subcategory_index(pair) == 0,
{
    CategoryPairHandle::from(category)
}

/// `Profile::add_category`: appends a category with the one subcategory
/// "Other" and answers with a handle that holds its index. The container keeps
/// the index in 16 bits, so the handle is right only while the profile holds
/// at most 65535 categories: the contract asks for that. Nothing else in the
/// profile changes.
#[verifier::external_body]
pub(crate) fn add_category(
    profile: &mut Profile,
    name: &str,
    color: CategoryColor,
) -> (category: CategoryHandle)
    requires
        profile_categories(*old(profile)).len() <= u16::MAX,
    ensures
        category_index(category) == profile_categories(*old(profile)).len(),
        profile_categories(*final(profile)) == profile_categories(*old(profile)).push(
            CategoryEntry { name: name@, color, subcategories: seq!["Other"@] },
        ),
        same_threads(*old(profile), *final(profile)),
        same_strings(*old(profile), *final(profile)),
        same_stacks(*old(profile), *final(profile)),
        same_samples(*old(profile), *final(profile)),
{
    let color = match color {
        CategoryColor::Transparent => SinkColor::Transparent, CategoryColor::LightBlue => SinkColor::LightBlue,
        CategoryColor::Red => SinkColor::Red, CategoryColor::LightRed => SinkColor::LightRed,
        CategoryColor::Orange => SinkColor::Orange, CategoryColor::Blue => SinkColor::Blue,
        CategoryColor::Green => SinkColor::Green, CategoryColor::Purple => SinkColor::Purple,
        CategoryColor::Yellow => SinkColor::Yellow, CategoryColor::Brown => SinkColor::Brown,
        CategoryColor::Magenta => SinkColor::Magenta, CategoryColor::LightGreen => SinkColor::LightGreen,
        CategoryColor::Gray => SinkColor::Gray, CategoryColor::DarkGray => SinkColor::DarkGray,
    };
    profile.add_category(name, color)
}

/// `Profile::add_subcategory`: appends a subcategory name to the category that
/// the handle points at, and answers with the pair of that category and the
/// new subcategory's index. The container indexes its category list with the
/// handle and keeps the subcategory index in 16 bits, failing beyond it: the
/// contract asks for a category that exists, with at most 65535 subcategories.
/// Nothing else in the profile changes.
#[verifier::external_body]
pub(crate) fn add_subcategory(
    profile: &mut Profile,
    category: CategoryHandle,
    name: &str,
) -> (pair: CategoryPairHandle)
    requires
        category_index(category) < profile_categories(*old(profile)).len(),
        profile_categories(*old(profile))[category_index(category) as int].subcategories.len()
            <= u16::MAX,
    ensures
        pair_category_index(pair) == category_index(category),
        pair_subcategory_index(pair) == profile_categories(*old(profile))[category_index(
            category,
        ) as int].subcategories.len(),
        profile_categories(*final(profile)) == profile_categories(*old(profile)).update(
            category_index(category) as int,
            CategoryEntry {
                subcategories: profile_categories(*old(profile))[category_index(
                    category,
                ) as int].subcategories.push(name@),
                ..profile_categories(*old(profile))[category_index(category) as int]
            },
        ),
        same_threads(*old(profile), *final(profile)),
        same_strings(*old(profile), *final(profile)),
        same_stacks(*old(profile), *final(profile)),
        same_samples(*old(profile), *final(profile)),
{
    profile.add_subcategory(category, name)
}

/// `Profile::add_process`, with the start time in nanoseconds since the
/// reference time: adds a process of that name and start, without threads,
/// and answers with a handle that no earlier process has. Nothing else in the
/// profile changes. Nothing is claimed of the process id, which the container
/// keeps as text.
#[verifier::external_body]
pub(crate) fn add_process(
    profile: &mut Profile,
    name: &str,
    pid: u32,
    start_nanos: u64,
) -> (process: ProcessHandle)
    ensures
        !profile_processes(*old(profile)).contains_key(process),
        profile_processes(*final(profile)) == profile_processes(*old(profile)).insert(
            process,
            ProcessEntry { name: name@, start_nanos },
        ),
        profile_threads(*final(profile)) == profile_threads(*old(profile)),
        same_header(*old(profile), *final(profile)),
        same_categories(*old(profile), *final(profile)),
        same_strings(*old(profile), *final(profile)),
        same_stacks(*old(profile), *final(profile)),
        same_samples(*old(profile), *final(profile)),
{
    profile.add_process(name, pid, Timestamp::from_nanos_since_reference(start_nanos))
}

/// `Profile::add_thread`, with the start time in nanoseconds since the
/// reference time: adds a thread of that start and main flag to a process of
/// the profile and answers with a handle that no earlier thread has. The new
/// thread has no sample and no stack; the other threads keep theirs. The
/// container indexes its process list with the handle: the contract asks for
/// a process of this profile. Nothing is claimed of the thread id, which the
/// container keeps as text.
#[verifier::external_body]
pub(crate) fn add_thread(
    profile: &mut Profile,
    process: ProcessHandle,
    tid: u32,
    start_nanos: u64,
    is_main: bool,
) -> (thread: ThreadHandle)
    requires
        profile_processes(*old(profile)).contains_key(process),
    ensures
        !profile_threads(*old(profile)).contains_key(thread),
        profile_threads(*final(profile)) == profile_threads(*old(profile)).insert(
            thread,
            ThreadEntry { process, start_nanos, is_main },
        ),
        profile_processes(*final(profile)) == profile_processes(*old(profile)),
        same_header(*old(profile), *final(profile)),
        thread_samples(*final(profile), thread) == Seq::<Sample>::empty(),
        interned_stacks(*final(profile), thread).dom() == Set::<Seq<LabelFrame>>::empty(),
        forall|other: ThreadHandle|
            other != thread ==> #[trigger] thread_samples(*final(profile), other) == thread_samples(
                *old(profile),
                other,
            ),
        forall|other: ThreadHandle|
            other != thread ==> #[trigger] interned_stacks(*final(profile), other)
                == interned_stacks(*old(profile), other),
        same_categories(*old(profile), *final(profile)),
        same_strings(*old(profile), *final(profile)),
{
    profile.add_thread(process, tid, Timestamp::from_nanos_since_reference(start_nanos), is_main)
}

/// `Profile::intern_string`: answers with the handle under which the profile
/// holds the string. A string that was interned before keeps its handle and
/// leaves the profile as it is; a new one is recorded under the handle
/// returned. Nothing else in the profile changes.
#[verifier::external_body]
pub(crate) fn intern_string(profile: &mut Profile, text: &str) -> (handle: StringHandle)
    ensures
        interned_strings(*final(profile)) == if interned_strings(*old(profile)).contains_key(
            text@,
        ) {
            interned_strings(*old(profile))
        } else {
            interned_strings(*old(profile)).insert(text@, handle)
        },
        interned_strings(*final(profile)).contains_key(text@),
        interned_strings(*final(profile))[text@] == handle,
        same_categories(*old(profile), *final(profile)),
        same_threads(*old(profile), *final(profile)),
        same_stacks(*old(profile), *final(profile)),
        same_samples(*old(profile), *final(profile)),
{
    profile.intern_string(text)
}

/// `Profile::intern_stack_frames` on label frames without flags, outermost
/// first: answers with the handle under which the thread holds that stack, and
/// with `None` for no frames. The whole request is handed over; this container
/// takes a frame's label and category and has no place for its source
/// reference, so requests that differ in nothing else get one handle. The
/// container interns the stack frame by frame,
/// so that afterwards the thread also holds every shorter stack that the new
/// one starts with; stacks interned before keep their handles. The container
/// indexes its thread list with the thread handle and looks up each label's
/// text: the contract asks for a thread and for labels of this profile.
/// Nothing else in the profile changes.
#[verifier::external_body]
pub(crate) fn intern_stack_frames(
    profile: &mut Profile,
    thread: ThreadHandle,
    frames: &Vec<FrameRequest>,
) -> (stack: Option<StackHandle>)
    requires
        profile_threads(*old(profile)).contains_key(thread),
        forall|i: int|
            0 <= i < frames@.len() ==> is_string_of(*old(profile), #[trigger] frames@[i].label),
    ensures
        stack is Some <==> frames@.len() > 0,
        stack matches Some(handle) ==> interned_stacks(*final(profile), thread).contains_key(
            kept_frames(frames@),
        ) && interned_stacks(*final(profile), thread)[kept_frames(frames@)] == handle,
        interned_stacks(*old(profile), thread).submap_of(interned_stacks(*final(profile), thread)),
        interned_stacks(*final(profile), thread).dom() == interned_stacks(
            *old(profile),
            thread,
        ).dom().union(stack_prefixes(kept_frames(frames@))),
        forall|other: ThreadHandle|
            other != thread ==> #[trigger] interned_stacks(*final(profile), other)
                == interned_stacks(*old(profile), other),
        same_categories(*old(profile), *final(profile)),
        same_threads(*old(profile), *final(profile)),
        same_strings(*old(profile), *final(profile)),
        same_samples(*old(profile), *final(profile)),
{
    profile.intern_stack_frames(
        thread,
        frames.iter().map(
            |frame|
                FrameInfo {
                    frame: Frame::Label(frame.label),
                    category_pair: frame.category,
                    flags: FrameFlags::empty(),
                },
        ),
    )
}

/// `Profile::add_sample`, with the timestamp in nanoseconds since the
/// reference time and the CPU delta in microseconds: appends one row to the
/// thread's sample table. The container indexes its thread list with the
/// thread handle and fails on a stack of another thread: the contract asks for
/// a thread of this profile and a stack interned for it. Nothing else in the
/// profile changes.
#[verifier::external_body]
pub(crate) fn add_sample(
    profile: &mut Profile,
    thread: ThreadHandle,
    nanos: u64,
    stack: Option<StackHandle>,
    cpu_micros: u64,
    weight: i32,
)
    requires
        profile_threads(*old(profile)).contains_key(thread),
        stack matches Some(handle) ==> is_stack_of(*old(profile), thread, handle),
    ensures
        thread_samples(*final(profile), thread) == thread_samples(*old(profile), thread).push(
            Sample { nanos, stack, cpu_micros, weight },
        ),
        forall|other: ThreadHandle|
            other != thread ==> #[trigger] thread_samples(*final(profile), other) == thread_samples(
                *old(profile),
                other,
            ),
        same_categories(*old(profile), *final(profile)),
        same_threads(*old(profile), *final(profile)),
        same_strings(*old(profile), *final(profile)),
        same_stacks(*old(profile), *final(profile)),
{
    profile.add_sample(
        thread,
        Timestamp::from_nanos_since_reference(nanos),
        stack,
        CpuDelta::from_micros(cpu_micros),
        weight,
    )
}

} // verus!
