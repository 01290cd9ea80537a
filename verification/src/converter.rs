//! The trace builder: it turns job records, one by one, into stacks and
//! samples of a profile.

use crate::cache::{cache_get, cache_insert, cache_new, CategoryCache};
use crate::categories::{rule_descriptors, rule_patterns, CategoryRule};
use crate::category_matcher::CategoryMatcher;
use crate::registry::register_all;
use crate::sink::{
    add_process, add_sample, add_thread, intern_stack_frames, intern_string, interned_stacks,
    interned_strings, is_string_of, kept_frames, new_profile, other_category_entry,
    profile_categories, profile_interval_nanos, profile_processes, profile_product,
    profile_threads, same_categories, same_samples, same_stacks, same_threads, stack_prefixes,
    thread_samples, time_since_unix_epoch, FrameRequest, ProcessEntry, SourceLocation,
    ThreadEntry,
};
use crate::timeline::{
    durations_fit, elapsed, lemma_elapsed_push, lemma_timeline_len, lemma_timeline_ordered,
    lemma_timeline_span, lemma_timeline_weight, marker_sample, span_sample, timeline,
    timestamp_nanos, timestamp_of, total_weight, Job, MAX_DURATION, MICROS_PER_SECOND,
};
use crate::tokens::{split_tokens, tokenize};
use fxprof_processed_profile::{
    CategoryPairHandle, ProcessHandle, Profile, StringHandle, ThreadHandle,
};
use std::time::Duration;
use vstd::map_lib::lemma_submap_of_trans;
use vstd::prelude::*;

verus! {

/// One job record of the input.
#[derive(Clone, Copy, Debug, PartialEq, Eq)]
pub struct Row<'a> {
    pub repository_name: &'a str,
    pub job_type_name: &'a str,
    pub platform: &'a str,
    pub job_group_symbol: &'a str,
    /// How long the job ran, in whole seconds.
    pub duration: u64,
}

/// The source reference of the job-type frame of the record on line
/// `line_number` of the input whose interned path is `origin`: that path and
/// that line, without a column.
pub open spec fn row_source(origin: StringHandle, line_number: u32) -> SourceLocation {
    SourceLocation { file_path: Some(origin), line: Some(line_number), col: None }
}

/// The frames that are requested for a record, outermost first: repository,
/// platform and job group, each tagged `uncategorized` and without a source
/// reference, then the job type, tagged `category` and referring to the
/// record's line of the input. The labels are the handles under which
/// `profile` holds the four texts.
pub open spec fn row_frames(
    profile: Profile,
    uncategorized: CategoryPairHandle,
    category: CategoryPairHandle,
    origin: StringHandle,
    row: Row,
    line_number: u32,
) -> Seq<FrameRequest> {
    let strings = interned_strings(profile);
    seq![
        FrameRequest {
            label: strings[row.repository_name@],
            category: uncategorized,
            source: None,
        },
        FrameRequest { label: strings[row.platform@], category: uncategorized, source: None },
        FrameRequest {
            label: strings[row.job_group_symbol@],
            category: uncategorized,
            source: None,
        },
        FrameRequest {
            label: strings[row.job_type_name@],
            category,
            source: Some(row_source(origin, line_number)),
        },
    ]
}

/// The profile is laid out for one trace: it bears the name of what the trace
/// shows and a nominal interval of one second, and holds exactly one process,
/// of the same name, with exactly one thread, `thread`, which is its main
/// thread. Process and thread start at the profile's reference time.
pub open spec fn laid_out(profile: Profile, thread: ThreadHandle) -> bool {
    let process = profile_threads(profile)[thread].process;
    &&& profile_product(profile) == "Utilization"@
    &&& profile_interval_nanos(profile) == 1_000_000_000
    &&& profile_processes(profile) == Map::<ProcessHandle, ProcessEntry>::empty().insert(
        process,
        ProcessEntry { name: "Utilization"@, start_nanos: 0 },
    )
    &&& profile_threads(profile) == Map::<ThreadHandle, ThreadEntry>::empty().insert(
        thread,
        ThreadEntry { process, start_nanos: 0, is_main: true },
    )
}

/// Builds the trace of one run: a profile with a single thread, on which every
/// record leaves a stack of four frames and two samples.
pub struct Converter {
    profile: Profile,
    thread: ThreadHandle,
    category_matcher: CategoryMatcher,
    file_path_s: StringHandle,
    category_by_job_name: CategoryCache,
    accumulated_seconds: u64,
    jobs: Ghost<Seq<Job>>,
}

impl View for Converter {
    type V = Seq<Job>;

    /// The jobs on the timeline so far, in the order of their records.
    closed spec fn view(&self) -> Seq<Job> {
        self.jobs@
    }
}

impl Converter {
    /// The profile being filled.
    pub closed spec fn profile(&self) -> Profile {
        self.profile
    }

    /// The thread of the profile that takes the samples.
    pub closed spec fn thread(&self) -> ThreadHandle {
        self.thread
    }

    /// The resolver for job-type names that were not seen before.
    pub closed spec fn matcher(&self) -> CategoryMatcher {
        self.category_matcher
    }

    /// The handle of the interned path of the input.
    pub closed spec fn origin(&self) -> StringHandle {
        self.file_path_s
    }

    /// The handle under which the profile holds the path of the input.
    pub fn file_path(&self) -> (handle: StringHandle)
        ensures
            handle == self.origin(),
    {
        self.file_path_s
    }

    /// The memo of resolved categories, by the handle of the job-type name.
    pub closed spec fn cache(&self) -> Map<StringHandle, CategoryPairHandle> {
        self.category_by_job_name@
    }

    /// The seconds on the timeline so far.
    pub closed spec fn total_seconds(&self) -> u64 {
        self.accumulated_seconds
    }

    /// The state is consistent: the profile is laid out for the trace, with
    /// the one thread that takes the samples; its categories are the one it
    /// started with and those of the matcher's rules; the path is interned;
    /// the clock stands at the sum of the durations, and the thread's sample
    /// table is the timeline of the jobs.
    pub open spec fn wf(&self) -> bool {
        &&& laid_out(self.profile(), self.thread())
        &&& self.matcher().wf()
        &&& self.matcher().placed(1, profile_categories(self.profile()))
        &&& profile_categories(self.profile())[0] == other_category_entry()
        &&& is_string_of(self.profile(), self.origin())
        &&& durations_fit(self@)
        &&& self.total_seconds() == elapsed(self@)
        &&& thread_samples(self.profile(), self.thread()) == timeline(self@)
    }

    /// A converter that has taken no record yet, made for the input at `path`
    /// with the rule table `rules`.
    pub open spec fn fresh(&self, path: Seq<char>, rules: Seq<CategoryRule>) -> bool {
        &&& self.wf()
        &&& self@ == Seq::<Job>::empty()
        &&& self.total_seconds() == 0
        &&& thread_samples(self.profile(), self.thread()).len() == 0
        &&& self.cache().dom() == Set::<StringHandle>::empty()
        &&& self.matcher().patterns() == rule_patterns(rules)
        &&& self.matcher().descriptors() == rule_descriptors(rules)
        &&& profile_categories(self.profile()) == seq![other_category_entry()] + register_all(
            Seq::empty(),
            rule_descriptors(rules),
        )
        &&& interned_strings(self.profile()).contains_key(path)
        &&& interned_strings(self.profile())[path] == self.origin()
    }

    /// `self` is the state that follows `before` when the record `row`, which
    /// stands on line `line_number` of the input, has been taken.
    ///
    /// The profile has interned the four texts of the record and the stack of
    /// the four requested frames, and has kept what it had interned. The
    /// job-type frame is requested with the path of the input and the
    /// record's line as its source reference, and tagged with the category
    /// that the memo holds for the job-type name: the one it held before or,
    /// for a name it did not hold, what the matcher resolves the name's tokens
    /// to, which the memo holds from now on. The timeline has taken one more
    /// job with those frames and that stack, and with it the thread's sample
    /// table has taken the two samples of the job. Nothing has changed for
    /// any other thread.
    pub open spec fn follows(&self, before: Converter, row: Row, line_number: u32) -> bool {
        let thread = self.thread();
        let strings = interned_strings(self.profile());
        let name = strings[row.job_type_name@];
        let frames = row_frames(
            self.profile(),
            self.matcher().fallback(),
            self.cache()[name],
            self.origin(),
            row,
            line_number,
        );
        let job = Job {
            frames,
            stack: interned_stacks(self.profile(), thread)[kept_frames(frames)],
            duration: row.duration,
        };
        &&& self.thread() == before.thread()
        &&& self.matcher() == before.matcher()
        &&& self.origin() == before.origin()
        &&& same_categories(before.profile(), self.profile())
        &&& same_threads(before.profile(), self.profile())
        &&& interned_strings(before.profile()).submap_of(strings)
        &&& strings.dom() == interned_strings(before.profile()).dom().insert(
            row.repository_name@,
        ).insert(row.platform@).insert(row.job_group_symbol@).insert(row.job_type_name@)
        &&& self.cache() == if before.cache().contains_key(name) {
            before.cache()
        } else {
            before.cache().insert(name, self.matcher().resolve(split_tokens(row.job_type_name@)))
        }
        &&& interned_stacks(before.profile(), thread).submap_of(
            interned_stacks(self.profile(), thread),
        )
        &&& interned_stacks(self.profile(), thread).contains_key(kept_frames(frames))
        &&& interned_stacks(self.profile(), thread).dom() == interned_stacks(
            before.profile(),
            thread,
        ).dom().union(stack_prefixes(kept_frames(frames)))
        &&& self@ == before@.push(job)
        &&& self.total_seconds() == before.total_seconds() + row.duration
        &&& thread_samples(self.profile(), thread) == thread_samples(before.profile(), thread).push(
            span_sample(before.total_seconds() as nat, job),
        ).push(marker_sample(self.total_seconds() as nat, job))
        &&& forall|other: ThreadHandle|
            other != thread ==> #[trigger] thread_samples(self.profile(), other) == thread_samples(
                before.profile(),
                other,
            )
        &&& forall|other: ThreadHandle|
            other != thread ==> #[trigger] interned_stacks(self.profile(), other)
                == interned_stacks(before.profile(), other)
    }

    /// The memo holds a category for the job-type name: the profile has
    /// interned the name, and the memo has an entry for its handle.
    pub open spec fn remembers(&self, job_type_name: Seq<char>) -> bool {
        &&& interned_strings(self.profile()).contains_key(job_type_name)
        &&& self.cache().contains_key(interned_strings(self.profile())[job_type_name])
    }

    /// The category that the memo holds for the job-type name.
    pub open spec fn category_for(&self, job_type_name: Seq<char>) -> CategoryPairHandle {
        self.cache()[interned_strings(self.profile())[job_type_name]]
    }

    /// `self` is a later state of `earlier`: the same matcher at work, with
    /// every string still interned under its handle and every entry of the
    /// memo still in place.
    pub open spec fn extends(&self, earlier: Converter) -> bool {
        &&& self.matcher() == earlier.matcher()
        &&& interned_strings(earlier.profile()).submap_of(interned_strings(self.profile()))
        &&& earlier.cache().submap_of(self.cache())
    }

    /// Starts a trace for the input at `path`, with the current time as the
    /// profile's reference time. There is no converter where the clock reads
    /// earlier than the Unix epoch, which a reference time cannot be.
    pub fn new(path: &str, category_matchers: &[CategoryRule]) -> (converter: Option<Self>)
        requires
            category_matchers@.len() <= 0xFFFF,
        ensures
            converter matches Some(started) ==> started.fresh(path@, category_matchers@),
    {
        match time_since_unix_epoch() {
            Some(elapsed) => Some(Self::with_reference_time(path, category_matchers, elapsed)),
            None => None,
        }
    }

    /// Starts a trace for the input at `path`, with a reference time given as
    /// the time since the Unix epoch.
    ///
    /// The profile gets one process with one thread, its main thread, both
    /// starting at the reference time; profile and process are named for what
    /// the trace shows, and the nominal sampling interval is one second. The
    /// rule table is registered with the profile, and the path is interned.
    pub fn with_reference_time(
        path: &str,
        category_matchers: &[CategoryRule],
        since_unix_epoch: Duration,
    ) -> (converter: Self)
        requires
            category_matchers@.len() <= 0xFFFF,
        ensures
            converter.fresh(path@, category_matchers@),
    {
        let mut profile = new_profile("Utilization", since_unix_epoch, 1000);
        let process = add_process(&mut profile, "Utilization", 0, 0);
        proof {
            assert(profile_processes(profile) =~= Map::<ProcessHandle, ProcessEntry>::empty().insert(
                process,
                ProcessEntry { name: "Utilization"@, start_nanos: 0 },
            ));
        }
        let thread = add_thread(&mut profile, process, 0, 0, true);
        proof {
            assert(profile_threads(profile) =~= Map::<ThreadHandle, ThreadEntry>::empty().insert(
                thread,
                ThreadEntry { process, start_nanos: 0, is_main: true },
            ));
        }
        let category_matcher = CategoryMatcher::new(&mut profile, category_matchers);
        proof {
            let categories = profile_categories(profile);
            assert(categories[0] == categories.take(1)[0]);
            assert(categories =~= seq![other_category_entry()] + categories.skip(1));
        }
        let file_path_s = intern_string(&mut profile, path);
        Converter {
            profile,
            thread,
            category_matcher,
            file_path_s,
            category_by_job_name: cache_new(),
            accumulated_seconds: 0,
            jobs: Ghost(Seq::empty()),
        }
    }

    /// Interns a label and requests a frame of it, tagged with a category and
    /// without a source reference.
    fn label_frame(profile: &mut Profile, category: CategoryPairHandle, label: &str) -> (frame:
        FrameRequest)
        ensures
            frame.category == category,
            frame.source is None,
            interned_strings(*final(profile)).contains_key(label@),
            interned_strings(*final(profile))[label@] == frame.label,
            interned_strings(*old(profile)).submap_of(interned_strings(*final(profile))),
            interned_strings(*final(profile)).dom() == interned_strings(*old(profile)).dom().insert(
                label@,
            ),
            same_categories(*old(profile), *final(profile)),
            same_threads(*old(profile), *final(profile)),
            same_stacks(*old(profile), *final(profile)),
            same_samples(*old(profile), *final(profile)),
    {
        let label = intern_string(profile, label);
        FrameRequest { label, category, source: None }
    }

    /// Adds the record on line `line_number` of the input to the trace, as
    /// `follows` says.
    ///
    /// A sample's weight holds the duration in 31 bits and the clock counts in
    /// 64 bits: the record's duration must fit the one and leave the other
    /// within its range. A run ends at a record that does not.
    pub fn process_row(&mut self, row: &Row, line_number: u32)
        requires
            old(self).wf(),
            row.duration <= MAX_DURATION,
            old(self).total_seconds() + row.duration <= u64::MAX,
        ensures
            final(self).wf(),
            final(self).follows(*old(self), *row, line_number),
    {
        let duration = row.duration;
        let thread = self.thread;
        let uncategorized = self.category_matcher.uncategorized();
        let repo_frame = Self::label_frame(&mut self.profile, uncategorized, row.repository_name);
        let ghost with_repo = interned_strings(self.profile);
        let platform_frame = Self::label_frame(&mut self.profile, uncategorized, row.platform);
        let ghost with_platform = interned_strings(self.profile);
        let job_group_frame = Self::label_frame(
            &mut self.profile,
            uncategorized,
            row.job_group_symbol,
        );
        let ghost with_job_group = interned_strings(self.profile);
        let job_name_s = intern_string(&mut self.profile, row.job_type_name);
        let ghost strings = interned_strings(self.profile);
        proof {
            let before = interned_strings(old(self).profile);
            lemma_submap_of_trans(with_platform, with_job_group, strings);
            lemma_submap_of_trans(with_repo, with_platform, strings);
            lemma_submap_of_trans(before, with_repo, strings);
            lemma_still_interned(with_repo, strings, row.repository_name@);
            lemma_still_interned(with_platform, strings, row.platform@);
            lemma_still_interned(with_job_group, strings, row.job_group_symbol@);
            lemma_string_kept(old(self).profile, self.profile, self.file_path_s);
            assert(strings.dom() =~= before.dom().insert(row.repository_name@).insert(
                row.platform@,
            ).insert(row.job_group_symbol@).insert(row.job_type_name@));
        }
        let category = match cache_get(&self.category_by_job_name, job_name_s) {
            Some(category) => category,
            None => {
                let job_name_fragments = tokenize(row.job_type_name);
                let category = self.category_matcher.get(job_name_fragments.as_slice());
                cache_insert(&mut self.category_by_job_name, job_name_s, category);
                category
            },
        };
        let job_frame = FrameRequest {
            label: job_name_s,
            category,
            source: Some(
                SourceLocation {
                    file_path: Some(self.file_path_s),
                    line: Some(line_number),
                    col: None,
                },
            ),
        };
        let frames = vec![repo_frame, platform_frame, job_group_frame, job_frame];
        proof {
            assert(frames@ =~= row_frames(
                self.profile,
                uncategorized,
                category,
                self.file_path_s,
                *row,
                line_number,
            ));
            assert forall|i: int| 0 <= i < frames@.len() implies is_string_of(
                self.profile,
                #[trigger] frames@[i].label,
            ) by {
                assert(strings.contains_key(row.repository_name@));
                assert(strings.contains_key(row.platform@));
                assert(strings.contains_key(row.job_group_symbol@));
                assert(strings.contains_key(row.job_type_name@));
            }
        }
        let stack = intern_stack_frames(&mut self.profile, thread, &frames);
        let ghost job = Job { frames: frames@, stack: stack.unwrap(), duration };
        let start = self.accumulated_seconds;
        self.accumulated_seconds = start + duration;
        let end = self.accumulated_seconds;
        proof {
            assert(interned_stacks(self.profile, thread).contains_key(kept_frames(frames@)));
        }
        add_sample(&mut self.profile, thread, timestamp_of(start), stack, 0, duration as i32);
        proof {
            assert(interned_stacks(self.profile, thread).contains_key(kept_frames(frames@)));
        }
        add_sample(
            &mut self.profile,
            thread,
            timestamp_of(end),
            stack,
            duration * MICROS_PER_SECOND,
            0,
        );
        proof {
            lemma_elapsed_push(self.jobs@, job);
            assert(self.jobs@.push(job).drop_last() =~= self.jobs@);
        }
        self.jobs = Ghost(self.jobs@.push(job));
    }

    /// The seconds on the timeline so far.
    pub fn accumulated_seconds(&self) -> (seconds: u64)
        ensures
            seconds == self.total_seconds(),
    {
        self.accumulated_seconds
    }

    /// Ends the run and hands out the profile, whose thread holds the timeline
    /// of all records taken.
    pub fn finish(self) -> (profile: Profile)
        requires
            self.wf(),
        ensures
            profile == self.profile(),
            thread_samples(profile, self.thread()) == timeline(self@),
    {
        self.profile
    }
}

/// A text that a map holds is held, with the same handle, by every map that
/// the first is part of.
proof fn lemma_still_interned(
    earlier: Map<Seq<char>, StringHandle>,
    later: Map<Seq<char>, StringHandle>,
    text: Seq<char>,
)
    requires
        earlier.submap_of(later),
        earlier.contains_key(text),
    ensures
        later.contains_key(text),
        later[text] == earlier[text],
{
    assert(earlier.dom().contains(text) ==> later.dom().contains(text));
}

/// A handle of a profile's strings is one of every profile that has kept those
/// strings.
proof fn lemma_string_kept(before: Profile, after: Profile, handle: StringHandle)
    requires
        interned_strings(before).submap_of(interned_strings(after)),
        is_string_of(before, handle),
    ensures
        is_string_of(after, handle),
{
    let text = choose|text: Seq<char>| #[trigger]
        interned_strings(before).contains_key(text) && interned_strings(before)[text] == handle;
    lemma_still_interned(interned_strings(before), interned_strings(after), text);
}

/// Order: in the sample table of a consistent converter no sample has an
/// earlier timestamp than one appended before it, so the samples of every
/// record stand at or after those of the record before.
pub proof fn lemma_samples_ordered(converter: Converter)
    requires
        converter.wf(),
    ensures
        forall|a: int, b: int|
            0 <= a <= b < thread_samples(converter.profile(), converter.thread()).len()
                ==> #[trigger] thread_samples(converter.profile(), converter.thread())[a].nanos
                <= #[trigger] thread_samples(converter.profile(), converter.thread())[b].nanos,
{
    lemma_timeline_ordered(converter@);
}

/// Conservation: the clock of a consistent converter stands at the sum of the
/// durations of all records taken. The weights in the sample table add up
/// to the same sum, and the table spans it: the first sample stands at zero,
/// the last at the timestamp of the clock.
pub proof fn lemma_duration_conserved(converter: Converter)
    requires
        converter.wf(),
    ensures
        converter.total_seconds() == elapsed(converter@),
        thread_samples(converter.profile(), converter.thread()).len() == 2 * converter@.len(),
        total_weight(thread_samples(converter.profile(), converter.thread()))
            == converter.total_seconds(),
        converter@.len() > 0 ==> {
            &&& thread_samples(converter.profile(), converter.thread()).first().nanos == 0
            &&& thread_samples(converter.profile(), converter.thread()).last().nanos
                == timestamp_nanos(converter.total_seconds() as nat)
        },
{
    lemma_timeline_len(converter@);
    lemma_timeline_weight(converter@);
    if converter@.len() > 0 {
        lemma_timeline_span(converter@);
    }
}

/// Pairing: a record appends exactly two samples to the thread of the trace,
/// and none to any other thread. The two share one stack, that of the
/// record's job; the first stands at the clock before the record, with the
/// duration as its weight and no CPU time; the second stands at the clock
/// after it, with the duration as CPU time, in microseconds, and no weight.
pub proof fn lemma_row_samples(before: Converter, after: Converter, row: Row, line_number: u32)
    requires
        after.wf(),
        after.follows(before, row, line_number),
    ensures
        ({
            let earlier = thread_samples(before.profile(), before.thread());
            let samples = thread_samples(after.profile(), after.thread());
            let span = samples[earlier.len() as int];
            let marker = samples[earlier.len() as int + 1];
            &&& samples.len() == earlier.len() + 2
            &&& samples.take(earlier.len() as int) == earlier
            &&& span.stack == Some(after@.last().stack)
            &&& marker.stack == Some(after@.last().stack)
            &&& span.nanos == timestamp_nanos(before.total_seconds() as nat)
            &&& span.cpu_micros == 0
            &&& span.weight == row.duration
            &&& marker.nanos == timestamp_nanos(after.total_seconds() as nat)
            &&& marker.cpu_micros == row.duration * MICROS_PER_SECOND
            &&& marker.weight == 0
        }),
        forall|other: ThreadHandle|
            other != after.thread() ==> #[trigger] thread_samples(after.profile(), other)
                == thread_samples(before.profile(), other),
{
    let earlier = thread_samples(before.profile(), before.thread());
    let samples = thread_samples(after.profile(), after.thread());
    assert(after@[after@.len() - 1].duration <= MAX_DURATION);
    assert(samples.take(earlier.len() as int) =~= earlier);
}

/// The stack of a record: four frames are requested, outermost first, for
/// repository, platform, job group and job type. The first three carry the
/// fallback category and no source reference, whatever their text; only the
/// fourth carries the category of the job-type name and a source reference,
/// which is the path of the input and the record's line, without a column.
pub proof fn lemma_row_stack(before: Converter, after: Converter, row: Row, line_number: u32)
    requires
        after.follows(before, row, line_number),
    ensures
        ({
            let frames = after@.last().frames;
            let strings = interned_strings(after.profile());
            &&& frames.len() == 4
            &&& frames[0].label == strings[row.repository_name@]
            &&& frames[1].label == strings[row.platform@]
            &&& frames[2].label == strings[row.job_group_symbol@]
            &&& frames[3].label == strings[row.job_type_name@]
            &&& forall|i: int|
                0 <= i < 3 ==> (#[trigger] frames[i]).category == after.matcher().fallback()
                    && frames[i].source is None
            &&& frames[3].category == after.category_for(row.job_type_name@)
            &&& frames[3].source == Some(
                SourceLocation {
                    file_path: Some(after.origin()),
                    line: Some(line_number),
                    col: None,
                },
            )
            &&& interned_stacks(after.profile(), after.thread())[kept_frames(frames)]
                == after@.last().stack
        }),
{
}

/// Records on different lines get different job-type frames: the frame is
/// requested anew for every record, with the record's line in its source
/// reference, so no two records share the request, even where they agree in
/// every field.
pub proof fn lemma_lines_tell_frames_apart(
    before_first: Converter,
    after_first: Converter,
    first: Row,
    first_line: u32,
    before_second: Converter,
    after_second: Converter,
    second: Row,
    second_line: u32,
)
    requires
        after_first.follows(before_first, first, first_line),
        after_second.follows(before_second, second, second_line),
        first_line != second_line,
    ensures
        after_first@.last().frames[3].source->0.line == Some(first_line),
        after_second@.last().frames[3].source->0.line == Some(second_line),
        after_first@.last().frames[3] != after_second@.last().frames[3],
        after_first@.last().frames != after_second@.last().frames,
{
    lemma_row_stack(before_first, after_first, first, first_line);
    lemma_row_stack(before_second, after_second, second, second_line);
}

/// A record leaves a later state, in which the memo holds a category for the
/// record's job-type name: the one that tags the job-type frame of the
/// record's stack.
pub proof fn lemma_follows_extends(
    before: Converter,
    after: Converter,
    row: Row,
    line_number: u32,
)
    requires
        after.follows(before, row, line_number),
    ensures
        after.extends(before),
        after.remembers(row.job_type_name@),
        !before.cache().contains_key(interned_strings(after.profile())[row.job_type_name@])
            ==> after.category_for(row.job_type_name@) == after.matcher().resolve(
            split_tokens(row.job_type_name@),
        ),
{
}

/// Later states of later states are later states.
pub proof fn lemma_extends_transitive(first: Converter, second: Converter, third: Converter)
    requires
        second.extends(first),
        third.extends(second),
    ensures
        third.extends(first),
{
    lemma_submap_of_trans(
        interned_strings(first.profile()),
        interned_strings(second.profile()),
        interned_strings(third.profile()),
    );
    lemma_submap_of_trans(first.cache(), second.cache(), third.cache());
}

/// Memoization: once the memo holds a category for a job-type name, every
/// later state holds the same category for it.
pub proof fn lemma_category_remembered(earlier: Converter, later: Converter, name: Seq<char>)
    requires
        later.extends(earlier),
        earlier.remembers(name),
    ensures
        later.remembers(name),
        later.category_for(name) == earlier.category_for(name),
{
    let handle = interned_strings(earlier.profile())[name];
    assert(earlier.cache().dom().contains(handle));
}

/// Two records with the same job-type name get the same category, however
/// many records are taken between them and whatever their other fields and
/// their lines are.
pub proof fn lemma_same_name_same_category(
    before_first: Converter,
    after_first: Converter,
    first: Row,
    first_line: u32,
    before_second: Converter,
    after_second: Converter,
    second: Row,
    second_line: u32,
)
    requires
        after_first.follows(before_first, first, first_line),
        before_second.extends(after_first),
        after_second.follows(before_second, second, second_line),
        first.job_type_name@ == second.job_type_name@,
    ensures
        after_second.category_for(second.job_type_name@) == after_first.category_for(
            first.job_type_name@,
        ),
{
    lemma_follows_extends(before_first, after_first, first, first_line);
    lemma_follows_extends(before_second, after_second, second, second_line);
    lemma_extends_transitive(after_first, before_second, after_second);
    lemma_category_remembered(after_first, after_second, first.job_type_name@);
}

} // verus!
