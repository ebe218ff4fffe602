//! The log: what was done and what went wrong, filtered by level and kind.

use crate::events::{EventState, Key, KeyConfig};
use crate::info_subtype::{InfoSubType, LogType};
use crate::paginator::Paginator;
use crate::time_stamp::TimeStamp;
use vstd::prelude::*;
use vstd::string::*;

verus! {

/// The log drops its oldest entry when it reaches this many.
pub const LOG_LIMIT: usize = 100;

/// The number of entries that count as recent.
pub const RECENT: usize = 15;

/// The rows of a page of the log.
pub const LOG_PAGE_SIZE: usize = 8;

/// The levels that the log can be narrowed to.
#[derive(Clone, Copy, Debug, PartialEq, Eq, Structural)]
#[allow(clippy::upper_case_acronyms)]
pub enum Filter {
    ALL,
    INFO,
    ERROR,
}

impl Default for Filter {
    fn default() -> (filter: Filter)
        ensures
            filter == Filter::ALL,
    {
        Filter::ALL
    }
}

impl Filter {
    /// Whether the filter lets an entry of the level through.
    pub open spec fn lets_through(self, log_type: LogType) -> bool {
        match self {
            Filter::ALL => true,
            Filter::INFO => log_type is INFO,
            Filter::ERROR => log_type is ERROR,
        }
    }

    /// The name of the filter on its tab.
    pub open spec fn label_text(self) -> Seq<char> {
        match self {
            Filter::ALL => "All"@,
            Filter::INFO => "Info"@,
            Filter::ERROR => "Error"@,
        }
    }

    /// The filter before this one; the first is its own predecessor.
    pub open spec fn prev_level(self) -> Filter {
        match self {
            Filter::ALL => Filter::ALL,
            Filter::INFO => Filter::ALL,
            Filter::ERROR => Filter::INFO,
        }
    }

    /// The filter after this one; the last is its own successor.
    pub open spec fn next_level(self) -> Filter {
        match self {
            Filter::ALL => Filter::INFO,
            Filter::INFO => Filter::ERROR,
            Filter::ERROR => Filter::ERROR,
        }
    }

    /// The filter before this one; the first is its own predecessor.
    pub fn prev(self) -> (r: Filter)
        ensures
            r == self.prev_level(),
    {
        match self {
            Filter::ALL => Filter::ALL,
            Filter::INFO => Filter::ALL,
            Filter::ERROR => Filter::INFO,
        }
    }

    /// The filter after this one; the last is its own successor.
    pub fn next(self) -> (r: Filter)
        ensures
            r == self.next_level(),
    {
        match self {
            Filter::ALL => Filter::INFO,
            Filter::INFO => Filter::ERROR,
            Filter::ERROR => Filter::ERROR,
        }
    }

    /// Whether the filter lets an entry of the level through.
    pub fn includes(self, log_type: LogType) -> (r: bool)
        ensures
            r == self.lets_through(log_type),
    {
        match self {
            Filter::ALL => true,
            Filter::INFO => match log_type {
                LogType::INFO(_) => true,
                LogType::ERROR => false,
            },
            Filter::ERROR => match log_type {
                LogType::INFO(_) => false,
                LogType::ERROR => true,
            },
        }
    }

    /// The name of the filter on its tab.
    pub fn label(&self) -> (text: String)
        ensures
            text@ == self.label_text(),
    {
        String::from_str(
            match self {
                Filter::ALL => "All",
                Filter::INFO => "Info",
                Filter::ERROR => "Error",
            },
        )
    }
}

/// A kind of informational entry on the row of kinds, and whether the log is
/// narrowed to it.
#[derive(Clone, Copy, Debug, PartialEq, Eq, Structural)]
pub struct SubFilter {
    pub info_type: InfoSubType,
    pub selected: bool,
}

impl Default for SubFilter {
    fn default() -> (r: SubFilter)
        ensures
            r == (SubFilter { info_type: InfoSubType::General, selected: false }),
    {
        SubFilter { info_type: InfoSubType::General, selected: false }
    }
}

/// One entry of the log.
#[derive(Debug)]
pub struct LogEntry {
    pub log_type: LogType,
    pub time_stamp: TimeStamp,
    pub message: String,
}

impl Clone for LogEntry {
    fn clone(&self) -> (r: LogEntry)
        ensures
            r@ == self@,
    {
        LogEntry {
            log_type: self.log_type,
            time_stamp: self.time_stamp.clone(),
            message: self.message.clone(),
        }
    }
}

/// The mathematical value of a [`LogEntry`].
pub struct Record {
    pub log_type: LogType,
    pub day: u32,
    pub month: Seq<char>,
    pub hours: u32,
    pub minutes: u32,
    pub seconds: u32,
    pub message: Seq<char>,
}

impl View for LogEntry {
    type V = Record;

    open spec fn view(&self) -> Record {
        Record {
            log_type: self.log_type,
            day: self.time_stamp.day,
            month: self.time_stamp.month@,
            hours: self.time_stamp.hours,
            minutes: self.time_stamp.minutes,
            seconds: self.time_stamp.seconds,
            message: self.message@,
        }
    }
}

/// The entry that is made of a level, a time and a message.
pub open spec fn record_of(log_type: LogType, stamp: TimeStamp, message: Seq<char>) -> Record {
    Record {
        log_type,
        day: stamp.day,
        month: stamp.month@,
        hours: stamp.hours,
        minutes: stamp.minutes,
        seconds: stamp.seconds,
        message,
    }
}

/// The views of a list of entries.
pub open spec fn records_view(v: Seq<LogEntry>) -> Seq<Record> {
    Seq::new(v.len(), |i: int| v[i]@)
}

/// A log after one more entry: the new entry at the end, and the oldest one
/// dropped where the log has reached its limit.
pub open spec fn logged(before: Seq<Record>, entry: Record) -> Seq<Record> {
    if before.len() + 1 >= LOG_LIMIT {
        before.push(entry).drop_first()
    } else {
        before.push(entry)
    }
}

/// The kinds of the first `n` entries, each once, in the order in which they
/// first occur; the one the log is narrowed to is marked.
pub open spec fn kinds_of(logs: Seq<Record>, n: nat, narrowed_to: InfoSubType) -> Seq<SubFilter>
    decreases n,
{
    if n == 0 || n > logs.len() {
        Seq::empty()
    } else {
        let before = kinds_of(logs, (n - 1) as nat, narrowed_to);
        match logs[n - 1].log_type {
            LogType::INFO(kind) => {
                let entry = SubFilter { info_type: kind, selected: kind == narrowed_to };
                if before.contains(entry) {
                    before
                } else {
                    before.push(entry)
                }
            },
            LogType::ERROR => before,
        }
    }
}

/// The position of the first kind at or after `from` that equals `kind`.
pub open spec fn position_of(kinds: Seq<SubFilter>, kind: InfoSubType, from: int) -> Option<int>
    decreases kinds.len() - from,
{
    if from < 0 || from >= kinds.len() {
        None
    } else if kinds[from].info_type == kind {
        Some(from)
    } else {
        position_of(kinds, kind, from + 1)
    }
}

/// The position that follows (`forward`) or precedes position `at` in a
/// round of `len` positions.
pub open spec fn round_step(len: int, at: int, forward: bool) -> int {
    if forward {
        if at + 1 == len {
            0
        } else {
            at + 1
        }
    } else {
        if at == 0 {
            len - 1
        } else {
            at - 1
        }
    }
}

/// The message that is logged when the kind the log is narrowed to is not
/// on the row of kinds.
pub open spec fn lost_kind_message(forward: bool) -> Seq<char> {
    if forward {
        "Could not select next subfilter. Current subfilter not found"@
    } else {
        "Could not select previous subfilter. Current subfilter not found"@
    }
}

/// The log with its filters and its page.
#[derive(Debug)]
pub struct LogView {
    pub logs: Vec<LogEntry>,
    pub selected_filter: Filter,
    /// The kind that the log is narrowed to, while the level is `INFO`.
    pub selected_subfilter: Option<SubFilter>,
    /// The row of kinds, as last drawn up by [`LogView::update`].
    pub available_subfilters: Vec<SubFilter>,
    pub paginator: Paginator,
    pub key_config: KeyConfig,
}

impl LogView {
    /// The entries as mathematical values.
    pub open spec fn records(&self) -> Seq<Record> {
        records_view(self.logs@)
    }

    /// The log is below its limit, and the page covers it.
    pub open spec fn wf(&self) -> bool {
        &&& self.logs.len() < LOG_LIMIT
        &&& self.paginator.wf()
        &&& self.paginator.entry_len == self.logs.len()
    }

    /// Whether the filters let entry `i` through: the level has to pass,
    /// and, where the log is narrowed to a kind, an informational entry has
    /// to be of that kind.
    pub open spec fn shows(&self, i: int) -> bool {
        &&& self.selected_filter.lets_through(self.logs@[i].log_type)
        &&& match (self.selected_subfilter, self.logs@[i].log_type) {
            (Some(narrowed), LogType::INFO(kind)) => kind == narrowed.info_type,
            _ => true,
        }
    }

    /// The entries between `start` and `end` that the filters let through,
    /// the newest first.
    pub open spec fn shown_between(&self, start: int, end: int) -> Seq<usize>
        decreases end - start,
    {
        if end <= start {
            Seq::empty()
        } else if self.shows(end - 1) {
            seq![(end - 1) as usize] + self.shown_between(start, end - 1)
        } else {
            self.shown_between(start, end - 1)
        }
    }

    /// Whether the log is well-formed.
    pub fn is_wf(&self) -> (r: bool)
        ensures
            r == self.wf(),
    {
        self.logs.len() < LOG_LIMIT && self.paginator.is_wf() && self.paginator.entry_len
            == self.logs.len()
    }

    /// An empty log that shows every level.
    pub fn new(key_config: KeyConfig) -> (view: LogView)
        ensures
            view.records() == Seq::<Record>::empty(),
            view.selected_filter == Filter::ALL,
            view.selected_subfilter is None,
            view.available_subfilters@ == Seq::<SubFilter>::empty(),
            view.paginator == (Paginator { page: 0, page_size: LOG_PAGE_SIZE, entry_len: 0 }),
            view.key_config == key_config,
            view.wf(),
    {
        let view = LogView {
            logs: Vec::new(),
            selected_filter: Filter::default(),
            selected_subfilter: None,
            available_subfilters: Vec::new(),
            paginator: Paginator::new(LOG_PAGE_SIZE, 0),
            key_config,
        };
        assert(view.records() =~= Seq::<Record>::empty());
        view
    }

    /// Draws up the row of kinds anew.
    pub fn update(&mut self)
        ensures
            final(self).available_subfilters@ == match old(self).selected_subfilter {
                Some(narrowed) => kinds_of(
                    old(self).records(),
                    old(self).records().len(),
                    narrowed.info_type,
                ),
                None => Seq::empty(),
            },
            *final(self) == (LogView {
                available_subfilters: final(self).available_subfilters,
                ..*old(self)
            }),
    {
        self.available_subfilters = self.available_subfilters();
    }

    /// Adds an entry with the given time. The oldest entry leaves where the
    /// log has reached its limit.
    pub fn log_at(&mut self, message: &str, log_type: LogType, time_stamp: TimeStamp)
        requires
            old(self).wf(),
        ensures
            final(self).records() == logged(
                old(self).records(),
                record_of(log_type, time_stamp, message@),
            ),
            final(self).paginator == (Paginator {
                entry_len: final(self).logs.len(),
                ..old(self).paginator
            }),
            final(self).selected_filter == old(self).selected_filter,
            final(self).selected_subfilter == old(self).selected_subfilter,
            final(self).available_subfilters == old(self).available_subfilters,
            final(self).key_config == old(self).key_config,
            final(self).wf(),
    {
        self.logs.push(LogEntry { log_type, time_stamp, message: String::from_str(message) });
        if self.logs.len() >= LOG_LIMIT {
            self.logs.remove(0);
        }
        self.paginator.entry_len = self.logs.len();
        proof {
            assert(self.records() =~= logged(
                old(self).records(),
                record_of(log_type, time_stamp, message@),
            ));
            let (page, size) = (self.paginator.page as int, self.paginator.page_size as int);
            assert(page * size <= self.logs.len());
        }
    }

    /// Adds an entry with the time of the call.
    pub fn log(&mut self, message: &str, log_type: LogType)
        requires
            old(self).wf(),
        ensures
            exists|stamp: TimeStamp|
                stamp.valid() && final(self).records() == logged(
                    old(self).records(),
                    #[trigger] record_of(log_type, stamp, message@),
                ),
            final(self).paginator == (Paginator {
                entry_len: final(self).logs.len(),
                ..old(self).paginator
            }),
            final(self).selected_filter == old(self).selected_filter,
            final(self).selected_subfilter == old(self).selected_subfilter,
            final(self).available_subfilters == old(self).available_subfilters,
            final(self).key_config == old(self).key_config,
            final(self).wf(),
    {
        let stamp = TimeStamp::new();
        let ghost taken = stamp;
        self.log_at(message, log_type, stamp);
        assert(taken.valid() && self.records() == logged(
            old(self).records(),
            record_of(log_type, taken, message@),
        ));
    }

    /// The newest entries, the oldest of them first: all, or the last
    /// [`RECENT`] where there are more.
    pub fn recent(&self) -> (entries: Vec<LogEntry>)
        ensures
            records_view(entries@) == if self.logs.len() >= RECENT {
                self.records().skip(self.logs.len() - RECENT)
            } else {
                self.records()
            },
    {
        let from: usize = if self.logs.len() >= RECENT {
            self.logs.len() - RECENT
        } else {
            0
        };
        let mut entries: Vec<LogEntry> = Vec::new();
        let mut i: usize = from;
        while i < self.logs.len()
            invariant
                from <= i <= self.logs.len(),
                entries.len() == i - from,
                forall|k: int| 0 <= k < entries.len() ==> entries@[k]@ == self.logs@[from + k]@,
            decreases self.logs.len() - i,
        {
            entries.push(self.logs[i].clone());
            i += 1;
        }
        assert(records_view(entries@) =~= self.records().skip(from as int));
        assert(self.records().skip(0) =~= self.records());
        entries
    }

    /// The kinds of the informational entries of the log, each once, in the
    /// order in which they first occur; none while the log is not narrowed
    /// to a kind.
    pub fn available_subfilters(&self) -> (found: Vec<SubFilter>)
        ensures
            found@ == match self.selected_subfilter {
                Some(narrowed) => kinds_of(self.records(), self.records().len(), narrowed.info_type),
                None => Seq::empty(),
            },
    {
        let mut found_subtypes: Vec<SubFilter> = Vec::new();
        let narrowed = match self.selected_subfilter {
            Some(narrowed) => narrowed,
            None => {
                return found_subtypes;
            },
        };
        let mut i: usize = 0;
        while i < self.logs.len()
            invariant
                i <= self.logs.len(),
                found_subtypes@ == kinds_of(self.records(), i as nat, narrowed.info_type),
            decreases self.logs.len() - i,
        {
            assert(self.records()[i as int] == self.logs@[i as int]@);
            match self.logs[i].log_type {
                LogType::INFO(sub_type) => {
                    let entry = SubFilter {
                        info_type: sub_type,
                        selected: sub_type == narrowed.info_type,
                    };
                    if !holds(&found_subtypes, entry) {
                        found_subtypes.push(entry);
                    }
                },
                LogType::ERROR => {},
            }
            i += 1;
        }
        found_subtypes
    }

    /// The entries of the current page that the filters let through, by
    /// their positions in the log, the newest first.
    pub fn page_entries(&self) -> (entries: Vec<usize>)
        requires
            self.wf(),
        ensures
            entries@ == self.shown_between(self.paginator.start(), self.paginator.end()),
            forall|k: int| 0 <= k < entries.len() ==> entries@[k] < self.logs.len(),
    {
        let (start_idx, end_idx) = self.paginator.page_slice();
        let mut entries: Vec<usize> = Vec::new();
        let mut i: usize = end_idx;
        while i > start_idx
            invariant
                start_idx <= i <= end_idx <= self.logs.len(),
                entries@ + self.shown_between(start_idx as int, i as int) == self.shown_between(
                    start_idx as int,
                    end_idx as int,
                ),
                forall|k: int| 0 <= k < entries.len() ==> entries@[k] < self.logs.len(),
            decreases i,
        {
            i -= 1;
            let entry = &self.logs[i];
            let level_passes = self.selected_filter.includes(entry.log_type);
            let kind_passes = match (self.selected_subfilter, entry.log_type) {
                (Some(narrowed), LogType::INFO(kind)) => kind == narrowed.info_type,
                _ => true,
            };
            let ghost before = entries@;
            if level_passes && kind_passes {
                entries.push(i);
            }
            proof {
                let rest = self.shown_between(start_idx as int, i as int);
                if self.shows(i as int) {
                    assert(before.push(i) + rest =~= before + (seq![i] + rest));
                }
            }
        }
        assert(entries@ + Seq::<usize>::empty() =~= entries@);
        entries
    }
}

/// Whether the list holds the kind.
pub fn holds(kinds: &Vec<SubFilter>, entry: SubFilter) -> (r: bool)
    ensures
        r == kinds@.contains(entry),
{
    let mut i: usize = 0;
    while i < kinds.len()
        invariant
            i <= kinds.len(),
            forall|k: int| 0 <= k < i ==> kinds@[k] != entry,
        decreases kinds.len() - i,
    {
        if kinds[i] == entry {
            return true;
        }
        i += 1;
    }
    false
}

/// The position of the first kind of the list that equals `kind`.
pub fn find_kind(kinds: &Vec<SubFilter>, kind: InfoSubType) -> (r: Option<usize>)
    ensures
        match r {
            Some(at) => position_of(kinds@, kind, 0) == Some(at as int) && at < kinds.len(),
            None => position_of(kinds@, kind, 0) is None,
        },
{
    let mut i: usize = 0;
    while i < kinds.len()
        invariant
            i <= kinds.len(),
            position_of(kinds@, kind, i as int) == position_of(kinds@, kind, 0),
        decreases kinds.len() - i,
    {
        if kinds[i].info_type == kind {
            return Some(i);
        }
        i += 1;
    }
    None
}

impl LogView {
    /// The kind that the log is narrowed to under a level: the general kind
    /// under `INFO`, none under the other levels.
    pub open spec fn narrowing_of(filter: Filter) -> Option<SubFilter> {
        if filter == Filter::INFO {
            Some(SubFilter { info_type: InfoSubType::General, selected: true })
        } else {
            None
        }
    }

    /// Sets the level and, with it, the kind.
    fn set_filter(&mut self, filter: Filter)
        ensures
            *final(self) == (LogView {
                selected_filter: filter,
                selected_subfilter: LogView::narrowing_of(filter),
                ..*old(self)
            }),
    {
        self.selected_filter = filter;
        if filter == Filter::INFO {
            self.selected_subfilter = Some(
                SubFilter { info_type: InfoSubType::General, selected: true },
            );
        } else {
            self.selected_subfilter = None;
        }
    }

    /// Narrows the log to the level before the current one.
    pub fn prev_filter(&mut self)
        ensures
            *final(self) == (LogView {
                selected_filter: old(self).selected_filter.prev_level(),
                selected_subfilter: LogView::narrowing_of(old(self).selected_filter.prev_level()),
                ..*old(self)
            }),
    {
        let filter = self.selected_filter.prev();
        self.set_filter(filter);
    }

    /// Narrows the log to the level after the current one.
    pub fn next_filter(&mut self)
        ensures
            *final(self) == (LogView {
                selected_filter: old(self).selected_filter.next_level(),
                selected_subfilter: LogView::narrowing_of(old(self).selected_filter.next_level()),
                ..*old(self)
            }),
    {
        let filter = self.selected_filter.next();
        self.set_filter(filter);
    }

    /// What moving along the row of kinds does. Without a kind that the log
    /// is narrowed to, nothing; where that kind is on the row, the log is
    /// narrowed to its neighbour, round the ends of the row; where it is
    /// not, an error is logged.
    pub open spec fn subfilter_moved(pre: &LogView, post: &LogView, forward: bool) -> bool {
        match pre.selected_subfilter {
            None => *post == *pre,
            Some(current) => match position_of(
                pre.available_subfilters@,
                current.info_type,
                0,
            ) {
                Some(at) => *post == (LogView {
                    selected_subfilter: Some(
                        pre.available_subfilters@[round_step(
                            pre.available_subfilters@.len() as int,
                            at,
                            forward,
                        )],
                    ),
                    ..*pre
                }),
                None => {
                    &&& exists|stamp: TimeStamp|
                        stamp.valid() && post.records() == logged(
                            pre.records(),
                            #[trigger] record_of(
                                LogType::ERROR,
                                stamp,
                                lost_kind_message(forward),
                            ),
                        )
                    &&& post.paginator == (Paginator {
                        entry_len: post.logs.len(),
                        ..pre.paginator
                    })
                    &&& post.selected_filter == pre.selected_filter
                    &&& post.selected_subfilter == pre.selected_subfilter
                    &&& post.available_subfilters == pre.available_subfilters
                    &&& post.key_config == pre.key_config
                },
            },
        }
    }

    /// Narrows the log to the kind before the current one on the row of
    /// kinds.
    pub fn prev_subfilter(&mut self)
        requires
            old(self).wf(),
        ensures
            LogView::subfilter_moved(old(self), final(self), false),
            final(self).wf(),
    {
        let current_subfilter = match self.selected_subfilter {
            Some(current) => current.info_type,
            None => {
                return ;
            },
        };
        match find_kind(&self.available_subfilters, current_subfilter) {
            Some(found_idx) => {
                let prev_idx = if found_idx == 0 {
                    self.available_subfilters.len() - 1
                } else {
                    found_idx - 1
                };
                self.selected_subfilter = Some(self.available_subfilters[prev_idx]);
            },
            None => {
                self.log(
                    "Could not select previous subfilter. Current subfilter not found",
                    LogType::ERROR,
                );
            },
        }
    }

    /// Narrows the log to the kind after the current one on the row of
    /// kinds.
    pub fn next_subfilter(&mut self)
        requires
            old(self).wf(),
        ensures
            LogView::subfilter_moved(old(self), final(self), true),
            final(self).wf(),
    {
        let current_subfilter = match self.selected_subfilter {
            Some(current) => current.info_type,
            None => {
                return ;
            },
        };
        match find_kind(&self.available_subfilters, current_subfilter) {
            Some(found_idx) => {
                let next_idx = if found_idx + 1 == self.available_subfilters.len() {
                    0
                } else {
                    found_idx + 1
                };
                self.selected_subfilter = Some(self.available_subfilters[next_idx]);
            },
            None => {
                self.log(
                    "Could not select next subfilter. Current subfilter not found",
                    LogType::ERROR,
                );
            },
        }
    }

    /// Whether the log answers to the key.
    pub open spec fn binds(&self, key: Key) -> bool {
        let keys = self.key_config;
        key == keys.left || key == keys.right || key == keys.prev_subfilter || key
            == keys.next_subfilter || key == keys.page_down || key == keys.page_up
    }

    /// What [`LogView::event`] does with each key. Where one key is bound
    /// twice, the first binding in this order counts.
    pub open spec fn event_post(pre: &LogView, key: Key, post: &LogView) -> bool {
        let keys = pre.key_config;
        if key == keys.left {
            *post == (LogView {
                selected_filter: pre.selected_filter.prev_level(),
                selected_subfilter: LogView::narrowing_of(pre.selected_filter.prev_level()),
                ..*pre
            })
        } else if key == keys.right {
            *post == (LogView {
                selected_filter: pre.selected_filter.next_level(),
                selected_subfilter: LogView::narrowing_of(pre.selected_filter.next_level()),
                ..*pre
            })
        } else if key == keys.prev_subfilter {
            LogView::subfilter_moved(pre, post, false)
        } else if key == keys.next_subfilter {
            LogView::subfilter_moved(pre, post, true)
        } else if key == keys.page_down {
            *post == (LogView {
                paginator: Paginator {
                    page: if pre.paginator.has_next() {
                        (pre.paginator.page + 1) as usize
                    } else {
                        pre.paginator.page
                    },
                    ..pre.paginator
                },
                ..*pre
            })
        } else if key == keys.page_up {
            *post == (LogView {
                paginator: Paginator {
                    page: if pre.paginator.page > 0 {
                        (pre.paginator.page - 1) as usize
                    } else {
                        0
                    },
                    ..pre.paginator
                },
                ..*pre
            })
        } else {
            *post == *pre
        }
    }

    /// Does what the key stands for, and says whether the log answers to the
    /// key at all.
    pub fn event(&mut self, key: Key) -> (state: EventState)
        requires
            old(self).wf(),
        ensures
            state == if old(self).binds(key) {
                EventState::Consumed
            } else {
                EventState::NotConsumed
            },
            LogView::event_post(old(self), key, final(self)),
            final(self).wf(),
    {
        let keys = self.key_config;
        if key == keys.left {
            self.prev_filter();
            return EventState::Consumed;
        }
        if key == keys.right {
            self.next_filter();
            return EventState::Consumed;
        }
        if key == keys.prev_subfilter {
            self.prev_subfilter();
            return EventState::Consumed;
        }
        if key == keys.next_subfilter {
            self.next_subfilter();
            return EventState::Consumed;
        }
        if key == keys.page_down {
            self.paginator.next_page();
            return EventState::Consumed;
        }
        if key == keys.page_up {
            self.paginator.prev_page();
            return EventState::Consumed;
        }
        EventState::NotConsumed
    }
}

} // verus!
