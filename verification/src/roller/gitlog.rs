//! Finds, in the one-line history of a date window, the commit that closes
//! a change and the commit that the change started from.

use vstd::prelude::*;

use crate::calendar::{date_text, day_after, day_before, parse_date, parsed_date, CalendarDate};
use crate::text::{
    chars_of, contains, find_from, first_index, has_substring, lines, rows_view, slice_of,
    split_lines, string_of,
};

verus! {

/// A change to look for: its title, substrings of the messages of its
/// commits from the oldest to the newest, the day it landed, and the day it
/// began where that is an earlier one.
#[derive(Debug, Clone, PartialEq, Eq)]
pub struct Gitlog {
    pub title: String,
    pub commits: Vec<String>,
    pub date: String,
    pub start_date: Option<String>,
}

/// What a `Gitlog` holds, as character sequences.
pub struct GitlogView {
    pub title: Seq<char>,
    pub commits: Seq<Seq<char>>,
    pub date: Seq<char>,
    pub start_date: Option<Seq<char>>,
}

impl View for Gitlog {
    type V = GitlogView;

    open spec fn view(&self) -> GitlogView {
        GitlogView {
            title: self.title@,
            commits: texts_view(self.commits@),
            date: self.date@,
            start_date: match self.start_date {
                Some(text) => Some(text@),
                None => None,
            },
        }
    }
}

/// The days between which the history is searched: commits after `start`
/// and before `end`.
#[derive(Debug, Clone, Copy, PartialEq, Eq, Structural)]
pub struct HistoryWindow {
    pub start: CalendarDate,
    pub end: CalendarDate,
}

/// A change that was found: the commit that closes it and the commit just
/// before its first one.
#[derive(Debug, Clone, PartialEq, Eq)]
pub struct LogContext {
    pub hash_cur: String,
    pub hash_old: String,
    pub title: String,
}

/// What a `LogContext` holds, as character sequences.
pub struct ContextView {
    pub hash_cur: Seq<char>,
    pub hash_old: Seq<char>,
    pub title: Seq<char>,
}

impl View for LogContext {
    type V = ContextView;

    open spec fn view(&self) -> ContextView {
        ContextView { hash_cur: self.hash_cur@, hash_old: self.hash_old@, title: self.title@ }
    }
}

impl LogContext {
    /// Both commits are named.
    pub open spec fn wf(&self) -> bool {
        self.hash_cur@.len() > 0 && self.hash_old@.len() > 0
    }
}

/// Why a change was not resolved.
#[derive(Debug, Clone, Copy, PartialEq, Eq, Structural)]
pub enum ResolveError {
    /// `date` is no date, or no day follows it.
    BadDate,
    /// `start_date` is no date, or no day lies before the day the window
    /// would start from.
    BadStartDate,
    /// No history of the window could be had.
    QueryFailed,
    /// The change lists no commit.
    NoCommits,
    /// The history does not name both commits.
    NotFound,
}

/// The identifier that a history line starts with: what stands before its
/// first space.
pub open spec fn line_id(line: Seq<char>) -> Seq<char> {
    line.take(first_index(line, ' '))
}

/// The message of a history line: what follows its first space.
pub open spec fn line_message(line: Seq<char>) -> Seq<char> {
    let space = first_index(line, ' ');
    if 0 <= space < line.len() {
        line.skip(space + 1)
    } else {
        Seq::empty()
    }
}

/// Whether the message of `line` holds `needle`.
pub open spec fn mentions(line: Seq<char>, needle: Seq<char>) -> bool {
    contains(line_message(line), needle)
}

/// The greatest index below `bound` of a line that mentions `needle`.
pub open spec fn last_mention(history: Seq<Seq<char>>, needle: Seq<char>, bound: int) -> Option<int>
    decreases bound,
{
    if bound <= 0 {
        None
    } else if mentions(history[bound - 1], needle) {
        Some(bound - 1)
    } else {
        last_mention(history, needle, bound - 1)
    }
}

/// The identifier of the line `offset` lines after line `at`; empty where
/// there is no `at`.
pub open spec fn id_near(history: Seq<Seq<char>>, at: Option<int>, offset: int) -> Seq<char> {
    match at {
        Some(i) => line_id(history[i + offset]),
        None => Seq::empty(),
    }
}

/// The identifier of the last line that mentions `newest`.
pub open spec fn found_cur(history: Seq<Seq<char>>, newest: Seq<char>) -> Seq<char> {
    id_near(history, last_mention(history, newest, history.len() as int), 0)
}

/// The identifier of the line after the last line that mentions `oldest`
/// and has a line after it.
pub open spec fn found_old(history: Seq<Seq<char>>, oldest: Seq<char>) -> Seq<char> {
    id_near(history, last_mention(history, oldest, history.len() - 1), 1)
}

/// What the history text `history`, which lists one commit per line from
/// the newest to the oldest, yields for a change with the given title and
/// commit substrings.
pub open spec fn context_of(title: Seq<char>, commits: Seq<Seq<char>>, history: Seq<char>) -> Result<
    ContextView,
    ResolveError,
> {
    if commits.len() == 0 {
        Err(ResolveError::NoCommits)
    } else {
        let hash_cur = found_cur(lines(history), commits.last());
        let hash_old = found_old(lines(history), commits[0]);
        if hash_cur.len() > 0 && hash_old.len() > 0 {
            Ok(ContextView { hash_cur, hash_old, title })
        } else {
            Err(ResolveError::NotFound)
        }
    }
}

/// The character sequences that the strings of `texts` hold.
pub open spec fn texts_view(texts: Seq<String>) -> Seq<Seq<char>> {
    Seq::new(texts.len(), |i: int| texts[i]@)
}

/// `found`, with its context taken by its view.
pub open spec fn outcome_view(found: Result<LogContext, ResolveError>) -> Result<
    ContextView,
    ResolveError,
> {
    match found {
        Ok(context) => Ok(context@),
        Err(error) => Err(error),
    }
}

/// The identifier of a history line.
fn row_id(row: &Vec<char>) -> (id: Vec<char>)
    ensures
        id@ == line_id(row@),
{
    let space = find_from(row, 0, ' ');
    proof {
        assert(row@.skip(0) == row@);
    }
    slice_of(row, 0, space)
}

/// Whether the message of a history line holds `needle`.
fn row_mentions(row: &Vec<char>, needle: &Vec<char>) -> (found: bool)
    ensures
        found == mentions(row@, needle@),
{
    let space = find_from(row, 0, ' ');
    proof {
        assert(row@.skip(0) == row@);
    }
    if space < row.len() {
        let message = slice_of(row, space + 1, row.len());
        has_substring(&message, needle)
    } else {
        let message: Vec<char> = Vec::new();
        has_substring(&message, needle)
    }
}

/// Looks in `history`, the one-line log of the window from the newest
/// commit to the oldest, for the two commits of the change: the last line
/// whose message holds the last of `commit_titles` names `hash_cur`, and
/// the line after the last line whose message holds the first of
/// `commit_titles` names `hash_old`.
pub fn get_context_log(title: &String, commit_titles: &Vec<String>, history: &str) -> (found: Result<
    LogContext,
    ResolveError,
>)
    ensures
        outcome_view(found) == context_of(title@, texts_view(commit_titles@), history@),
        found matches Ok(context) ==> context.wf(),
{
    if commit_titles.len() == 0 {
        return Err(ResolveError::NoCommits);
    }
    let oldest = chars_of(commit_titles[0].as_str());
    let newest = chars_of(commit_titles[commit_titles.len() - 1].as_str());
    let rows = split_lines(&chars_of(history));
    let ghost listed = lines(history@);
    let mut hash_cur: Vec<char> = Vec::new();
    let mut hash_old: Vec<char> = Vec::new();
    let mut i: usize = 0;
    while i < rows.len()
        invariant
            i <= rows.len(),
            rows_view(rows@) == listed,
            hash_cur@ == id_near(listed, last_mention(listed, newest@, i as int), 0),
            hash_old@ == id_near(
                listed,
                last_mention(listed, oldest@, if i < rows.len() { i as int } else { rows.len() - 1 }),
                1,
            ),
        decreases rows.len() - i,
    {
        if row_mentions(&rows[i], &newest) {
            hash_cur = row_id(&rows[i]);
        }
        if i + 1 < rows.len() {
            if row_mentions(&rows[i], &oldest) {
                hash_old = row_id(&rows[i + 1]);
            }
        }
        i += 1;
    }
    if hash_cur.len() == 0 || hash_old.len() == 0 {
        Err(ResolveError::NotFound)
    } else {
        Ok(LogContext { hash_cur: string_of(&hash_cur), hash_old: string_of(&hash_old), title: title.clone() })
    }
}

/// The date that `text` names, written as year, month and day with hyphens
/// between them.
pub open spec fn read_date(text: Seq<char>) -> Option<CalendarDate> {
    parsed_date(text, "%Y-%m-%d"@)
}

/// The window of a change that landed on `landed` and began on `began`:
/// from the day before it began to the day after it landed. `landed` is
/// `None` where the change names no date that can be read; `began` is
/// `None` where it names no start, so that it began on the day it landed,
/// and `Some(None)` where it names a start that cannot be read.
pub open spec fn window_for(landed: Option<CalendarDate>, began: Option<Option<CalendarDate>>) -> Result<
    HistoryWindow,
    ResolveError,
> {
    match (landed, began) {
        (None, _) => Err(ResolveError::BadDate),
        (Some(_), Some(None)) => Err(ResolveError::BadStartDate),
        (Some(landed), None) => match (landed.day_before(), landed.day_after()) {
            (Some(start), Some(end)) => Ok(HistoryWindow { start, end }),
            _ => Err(ResolveError::BadDate),
        },
        (Some(landed), Some(Some(began))) => match (began.day_before(), landed.day_after()) {
            (_, None) => Err(ResolveError::BadDate),
            (None, Some(_)) => Err(ResolveError::BadStartDate),
            (Some(start), Some(end)) => Ok(HistoryWindow { start, end }),
        },
    }
}

/// The window of a change whose date is written as `date` and whose start,
/// where it names one, as `start_date`.
pub open spec fn window_of(date: Seq<char>, start_date: Option<Seq<char>>) -> Result<
    HistoryWindow,
    ResolveError,
> {
    window_for(
        read_date(date),
        match start_date {
            Some(text) => Some(read_date(text)),
            None => None,
        },
    )
}

/// The window of a change from the dates that were read for it: `landed`
/// for its date, `began` for its start, with `None` for a change that
/// names no start and `Some(None)` for a start that could not be read.
pub fn window_from(landed: Option<CalendarDate>, began: Option<Option<CalendarDate>>) -> (window: Result<
    HistoryWindow,
    ResolveError,
>)
    ensures
        window == window_for(landed, began),
        window matches Ok(found) ==> found.start.is_valid() && found.end.is_valid(),
{
    let landed = match landed {
        Some(day) => day,
        None => {
            return Err(ResolveError::BadDate);
        },
    };
    let first = match began {
        Some(Some(day)) => day,
        Some(None) => {
            return Err(ResolveError::BadStartDate);
        },
        None => landed,
    };
    let end = match day_after(landed) {
        Some(day) => day,
        None => {
            return Err(ResolveError::BadDate);
        },
    };
    match day_before(first) {
        Some(start) => Ok(HistoryWindow { start, end }),
        None => if began.is_some() {
            Err(ResolveError::BadStartDate)
        } else {
            Err(ResolveError::BadDate)
        },
    }
}

/// The window in which the history is searched for `log`.
pub fn history_window(log: &Gitlog) -> (window: Result<HistoryWindow, ResolveError>)
    ensures
        window == window_of(log@.date, log@.start_date),
        window matches Ok(found) ==> found.start.is_valid() && found.end.is_valid(),
{
    let landed = parse_date(log.date.as_str(), "%Y-%m-%d");
    let began = match &log.start_date {
        Some(text) => Some(parse_date(text.as_str(), "%Y-%m-%d")),
        None => None,
    };
    window_from(landed, began)
}

/// The arguments that ask the version control for the history of `window`:
/// one line for each commit, the newest first.
pub open spec fn query_of(window: HistoryWindow) -> Seq<Seq<char>> {
    seq![
        "log"@,
        "--oneline"@,
        "--before"@,
        date_text(window.end),
        "--after"@,
        date_text(window.start),
    ]
}

/// The arguments that ask the version control for the history of `window`.
pub fn log_arguments(window: &HistoryWindow) -> (arguments: Vec<String>)
    ensures
        texts_view(arguments@) == query_of(*window),
{
    let mut arguments: Vec<String> = Vec::new();
    arguments.push("log".to_owned());
    arguments.push("--oneline".to_owned());
    arguments.push("--before".to_owned());
    arguments.push(window.end.text());
    arguments.push("--after".to_owned());
    arguments.push(window.start.text());
    arguments
}

/// What becomes of one change, given the history of its window, or `None`
/// where no history could be had.
pub open spec fn resolution(log: GitlogView, history: Option<Seq<char>>) -> Result<
    ContextView,
    ResolveError,
> {
    match (window_of(log.date, log.start_date), history) {
        (Err(error), _) => Err(error),
        (Ok(_), None) => Err(ResolveError::QueryFailed),
        (Ok(_), Some(listed)) => context_of(log.title, log.commits, listed),
    }
}

/// Resolves one change against the history of its window. `history` is
/// `None` where the query for it failed or was never made.
pub fn resolve(log: &Gitlog, history: Option<&str>) -> (found: Result<LogContext, ResolveError>)
    ensures
        outcome_view(found) == resolution(
            log@,
            match history {
                Some(listed) => Some(listed@),
                None => None,
            },
        ),
        found matches Ok(context) ==> context.wf(),
{
    match history_window(log) {
        Err(error) => Err(error),
        Ok(_) => match history {
            None => Err(ResolveError::QueryFailed),
            Some(listed) => get_context_log(&log.title, &log.commits, listed),
        },
    }
}

/// A change that was not resolved: its place in the list, and why.
#[derive(Debug, Clone, Copy, PartialEq, Eq, Structural)]
pub struct Failure {
    pub index: usize,
    pub error: ResolveError,
}

/// What a batch of changes came to: the contexts of those that were
/// resolved and the failures of the others, each in the order of the list.
#[derive(Debug, Clone, PartialEq, Eq)]
pub struct ResolveReport {
    pub contexts: Vec<LogContext>,
    pub failures: Vec<Failure>,
}

/// The history that was had for the change at place `i`; none where the
/// list of histories does not reach that far.
pub open spec fn history_at(histories: Seq<Option<String>>, i: int) -> Option<Seq<char>> {
    if 0 <= i < histories.len() {
        match histories[i] {
            Some(listed) => Some(listed@),
            None => None,
        }
    } else {
        None
    }
}

/// The contexts of the changes that resolve among the first `upto` of
/// `logs`, in their order.
pub open spec fn emitted(logs: Seq<Gitlog>, histories: Seq<Option<String>>, upto: int) -> Seq<
    ContextView,
>
    decreases upto,
{
    if upto <= 0 {
        Seq::empty()
    } else {
        let before = emitted(logs, histories, upto - 1);
        match resolution(logs[upto - 1]@, history_at(histories, upto - 1)) {
            Ok(context) => before.push(context),
            Err(_) => before,
        }
    }
}

/// The failures of the changes that do not resolve among the first `upto`
/// of `logs`, in their order.
pub open spec fn skipped(logs: Seq<Gitlog>, histories: Seq<Option<String>>, upto: int) -> Seq<
    Failure,
>
    decreases upto,
{
    if upto <= 0 {
        Seq::empty()
    } else {
        let before = skipped(logs, histories, upto - 1);
        match resolution(logs[upto - 1]@, history_at(histories, upto - 1)) {
            Ok(_) => before,
            Err(error) => before.push(Failure { index: (upto - 1) as usize, error }),
        }
    }
}

/// The views of the contexts of `contexts`.
pub open spec fn contexts_view(contexts: Seq<LogContext>) -> Seq<ContextView> {
    Seq::new(contexts.len(), |i: int| contexts[i]@)
}

/// Resolves every change of `logs`, each by itself: `histories` holds, at
/// the place of each change, the history of its window, or `None` where
/// none could be had. A change that does not resolve is reported and the
/// others go on.
pub fn find_commits(logs: &Vec<Gitlog>, histories: &Vec<Option<String>>) -> (report: ResolveReport)
    ensures
        contexts_view(report.contexts@) == emitted(logs@, histories@, logs.len() as int),
        report.failures@ == skipped(logs@, histories@, logs.len() as int),
        forall|k: int| 0 <= k < report.contexts.len() ==> (#[trigger] report.contexts[k]).wf(),
{
    let mut contexts: Vec<LogContext> = Vec::new();
    let mut failures: Vec<Failure> = Vec::new();
    let mut i: usize = 0;
    while i < logs.len()
        invariant
            i <= logs.len(),
            contexts_view(contexts@) == emitted(logs@, histories@, i as int),
            failures@ == skipped(logs@, histories@, i as int),
            forall|k: int| 0 <= k < contexts.len() ==> (#[trigger] contexts[k]).wf(),
        decreases logs.len() - i,
    {
        let history: Option<&str> = if i < histories.len() {
            match &histories[i] {
                Some(listed) => Some(listed.as_str()),
                None => None,
            }
        } else {
            None
        };
        match resolve(&logs[i], history) {
            Ok(context) => {
                contexts.push(context);
            },
            Err(error) => {
                failures.push(Failure { index: i, error });
            },
        }
        i += 1;
    }
    ResolveReport { contexts, failures }
}

/// `last_mention` names a line below `bound` that mentions `needle` and
/// after which no line below `bound` does; it names none exactly when no
/// line below `bound` mentions `needle`.
pub proof fn lemma_last_mention(history: Seq<Seq<char>>, needle: Seq<char>, bound: int)
    requires
        bound <= history.len(),
    ensures
        match last_mention(history, needle, bound) {
            Some(at) => {
                &&& 0 <= at < bound
                &&& mentions(history[at], needle)
                &&& forall|k: int| at < k < bound ==> !mentions(#[trigger] history[k], needle)
            },
            None => forall|k: int| 0 <= k < bound ==> !mentions(#[trigger] history[k], needle),
        },
    decreases bound,
{
    if bound > 0 && !mentions(history[bound - 1], needle) {
        lemma_last_mention(history, needle, bound - 1);
    }
}

/// A line below `bound` that mentions `needle`, and after which no line
/// below `bound` does, is the one that `last_mention` names.
pub proof fn lemma_last_mention_is(history: Seq<Seq<char>>, needle: Seq<char>, bound: int, at: int)
    requires
        0 <= at < bound <= history.len(),
        mentions(history[at], needle),
        forall|k: int| at < k < bound ==> !mentions(#[trigger] history[k], needle),
    ensures
        last_mention(history, needle, bound) == Some(at),
{
    lemma_last_mention(history, needle, bound);
}

/// Whether no line of `history` mentions `needle`.
pub open spec fn never_mentioned(history: Seq<Seq<char>>, needle: Seq<char>) -> bool {
    forall|k: int| 0 <= k < history.len() ==> !mentions(#[trigger] history[k], needle)
}

/// A change whose history was had, but mentions the newest of its commits
/// on no line, or the oldest of them on no line, is left out of the
/// contexts of the batch and adds one failure; the batch goes on.
pub proof fn lemma_unmatched_change_is_omitted(
    logs: Seq<Gitlog>,
    histories: Seq<Option<String>>,
    place: int,
)
    requires
        0 <= place < logs.len(),
        history_at(histories, place) is Some,
        never_mentioned(lines(history_at(histories, place)->0), logs[place]@.commits.last())
            || never_mentioned(lines(history_at(histories, place)->0), logs[place]@.commits[0]),
    ensures
        resolution(logs[place]@, history_at(histories, place)) is Err,
        emitted(logs, histories, place + 1) == emitted(logs, histories, place),
        skipped(logs, histories, place + 1).len() == skipped(logs, histories, place).len() + 1,
{
    let history = lines(history_at(histories, place)->0);
    let commits = logs[place]@.commits;
    lemma_last_mention(history, commits.last(), history.len() as int);
    lemma_last_mention(history, commits[0], history.len() - 1);
}

/// A change resolves to exactly one context of the batch when its dates
/// bound a window, the history of the window was had, line `cur` is the
/// last that mentions the newest of its commits, line `old`, at or below
/// `cur` and above the final line, is the last such line that mentions the
/// oldest, and both `cur` and the line after `old` start with an
/// identifier. The context names line `cur` as `hash_cur` and the line after
/// `old` as `hash_old`; that line stands below line `cur`, and the history
/// lists the newest commit first, so `hash_old` is the earlier commit.
pub proof fn lemma_matched_change_is_emitted(
    logs: Seq<Gitlog>,
    histories: Seq<Option<String>>,
    place: int,
    cur: int,
    old: int,
)
    requires
        0 <= place < logs.len(),
        window_of(logs[place]@.date, logs[place]@.start_date) is Ok,
        logs[place]@.commits.len() > 0,
        history_at(histories, place) is Some,
        ({
            let history = lines(history_at(histories, place)->0);
            let newest = logs[place]@.commits.last();
            let oldest = logs[place]@.commits[0];
            &&& 0 <= cur <= old < history.len() - 1
            &&& mentions(history[cur], newest)
            &&& forall|k: int| cur < k < history.len() ==> !mentions(#[trigger] history[k], newest)
            &&& mentions(history[old], oldest)
            &&& forall|k: int| old < k < history.len() - 1 ==> !mentions(#[trigger] history[k], oldest)
            &&& line_id(history[cur]).len() > 0
            &&& line_id(history[old + 1]).len() > 0
        }),
    ensures
        emitted(logs, histories, place + 1) == emitted(logs, histories, place).push(
            ContextView {
                hash_cur: line_id(lines(history_at(histories, place)->0)[cur]),
                hash_old: line_id(lines(history_at(histories, place)->0)[old + 1]),
                title: logs[place]@.title,
            },
        ),
        skipped(logs, histories, place + 1) == skipped(logs, histories, place),
        cur < old + 1 < lines(history_at(histories, place)->0).len(),
{
    let history = lines(history_at(histories, place)->0);
    let commits = logs[place]@.commits;
    lemma_last_mention_is(history, commits.last(), history.len() as int, cur);
    lemma_last_mention_is(history, commits[0], history.len() - 1, old);
}

/// Every change of a batch comes to one context or to one failure.
pub proof fn lemma_each_change_reports_once(
    logs: Seq<Gitlog>,
    histories: Seq<Option<String>>,
    upto: int,
)
    requires
        0 <= upto,
    ensures
        emitted(logs, histories, upto).len() + skipped(logs, histories, upto).len() == upto,
    decreases upto,
{
    if upto > 0 {
        lemma_each_change_reports_once(logs, histories, upto - 1);
    }
}

} // verus!
