//! What git prints, read.
//!
//! The log stream is fields ended by NUL bytes. A field that begins with
//! [`RECORD`] is a commit header; every other non-empty field is one line of
//! `--numstat`, the first of which carries the newline that git puts between the
//! header and the diff block. Only the first byte of a field is ever consulted,
//! so a subject that contains a record separator, a unit separator, a tab or a
//! pipe cannot desynchronise it.

use vstd::prelude::*;

use crate::clock;
use crate::clock::Moment;
use crate::config;
use crate::config::Ignored;
use crate::model;
use crate::model::{Churn, Commit, Text};
use crate::strings;

verus! {

/// Starts every header record of the log.
pub const RECORD: u8 = 0x1e;

/// Separates the fields inside one header record.
pub const UNIT: char = '\u{1f}';

pub const TAB: u8 = 0x09;

pub const NEWLINE: u8 = 0x0a;

/// A commit as the log gives it, its instant not yet rendered in local time.
#[derive(Debug, PartialEq, Eq)]
pub struct LoggedCommit {
    pub oid: String,
    pub author: String,
    /// Commit time, in seconds since the Unix epoch.
    pub committed: i64,
    pub subject: String,
    pub is_merge: bool,
    pub insertions: u64,
    pub deletions: u64,
    pub files: Vec<String>,
}

#[verifier::ext_equal]
pub struct LoggedView {
    pub oid: Text,
    pub author: Text,
    pub committed: i64,
    pub subject: Text,
    pub is_merge: bool,
    pub insertions: u64,
    pub deletions: u64,
    pub files: Seq<Text>,
}

impl View for LoggedCommit {
    type V = LoggedView;

    open spec fn view(&self) -> LoggedView {
        LoggedView {
            oid: self.oid@,
            author: self.author@,
            committed: self.committed,
            subject: self.subject@,
            is_merge: self.is_merge,
            insertions: self.insertions,
            deletions: self.deletions,
            files: strings::views(self.files@),
        }
    }
}

// ---------------------------------------------------------------------------
// Headers
// ---------------------------------------------------------------------------

/// The commit a header text describes: id, parents, author, commit time and
/// subject, one unit separator between each and the next. What follows the
/// fourth separator is the subject, whatever it holds.
pub open spec fn header(s: Text) -> Option<LoggedView> {
    match strings::parted(s, UNIT) {
        None => None,
        Some((oid, rest)) => match strings::parted(rest, UNIT) {
            None => None,
            Some((parents, rest)) => match strings::parted(rest, UNIT) {
                None => None,
                Some((author, rest)) => {
                    let (when, subject) = match strings::parted(rest, UNIT) {
                        Some((when, subject)) => (when, subject),
                        None => (rest, Seq::empty()),
                    };
                    match strings::signed_value(strings::trimmed(when)) {
                        Err(_) => None,
                        Ok(committed) => Some(
                            LoggedView {
                                oid,
                                author,
                                committed: committed as i64,
                                subject: strings::trimmed_end(subject),
                                is_merge: strings::words(parents).len() > 1,
                                insertions: 0,
                                deletions: 0,
                                files: Seq::empty(),
                            },
                        ),
                    }
                },
            },
        },
    }
}

/// Reads the bytes of a header record behind its [`RECORD`] byte.
pub fn parse_header(field: &[u8]) -> (out: Option<LoggedCommit>)
    ensures
        strings::view_of(out) == header(strings::lossy_text(field@)),
{
    let text = strings::lossy(field);
    let (oid, rest) = match strings::split_once(text.as_str(), UNIT) {
        Some(both) => both,
        None => {
            return None;
        },
    };
    let (parents, rest) = match strings::split_once(rest.as_str(), UNIT) {
        Some(both) => both,
        None => {
            return None;
        },
    };
    let (author, rest) = match strings::split_once(rest.as_str(), UNIT) {
        Some(both) => both,
        None => {
            return None;
        },
    };
    let (when, subject) = match strings::split_once(rest.as_str(), UNIT) {
        Some(both) => both,
        None => (rest, String::new()),
    };
    let committed = match strings::parse_signed(strings::trim(when.as_str()).as_str()) {
        Ok(committed) => committed,
        Err(_) => {
            return None;
        },
    };
    let parents = strings::split_words(parents.as_str());
    let files: Vec<String> = Vec::new();
    assert(strings::views(files@) =~= Seq::empty());
    Some(
        LoggedCommit {
            oid,
            author,
            committed,
            subject: strings::trim_end(subject.as_str()),
            is_merge: parents.len() > 1,
            insertions: 0,
            deletions: 0,
            files,
        },
    )
}

/// A subject that holds separators stays whole: with four machine-written
/// fields in front of it, everything behind the fourth separator is the subject.
pub proof fn law_a_subject_may_hold_separators(
    oid: Text,
    parents: Text,
    author: Text,
    when: Text,
    subject: Text,
)
    requires
        !oid.contains(UNIT),
        !parents.contains(UNIT),
        !author.contains(UNIT),
        !when.contains(UNIT),
        strings::signed_value(strings::trimmed(when)) is Ok,
    ensures
        ({
            let record = oid.push(UNIT) + (parents.push(UNIT) + (author.push(UNIT) + (when.push(
                UNIT,
            ) + subject)));
            &&& header(record) is Some
            &&& header(record)->0.oid == oid
            &&& header(record)->0.author == author
            &&& header(record)->0.committed == strings::signed_value(
                strings::trimmed(when),
            )->Ok_0 as i64
            &&& header(record)->0.subject == strings::trimmed_end(subject)
        }),
{
    let rest3 = when.push(UNIT) + subject;
    let rest2 = author.push(UNIT) + rest3;
    let rest1 = parents.push(UNIT) + rest2;
    strings::lemma_parted_pair(oid, rest1, UNIT);
    strings::lemma_parted_pair(parents, rest2, UNIT);
    strings::lemma_parted_pair(author, rest3, UNIT);
    strings::lemma_parted_pair(when, subject, UNIT);
}

// ---------------------------------------------------------------------------
// Changed files
// ---------------------------------------------------------------------------

/// One line of `--numstat`: lines added, lines removed, path. A binary file has
/// `-` in place of both counts.
pub open spec fn line_count(raw: Seq<u8>) -> Option<u64> {
    match strings::unsigned_value(strings::latin(raw), u64::MAX as nat) {
        Ok(n) => Some(n as u64),
        Err(_) => None,
    }
}

pub open spec fn numstat(line: Seq<u8>) -> Option<(Option<u64>, Option<u64>, Text)> {
    match strings::parted(line, TAB) {
        None => None,
        Some((added, rest)) => match strings::parted(rest, TAB) {
            None => None,
            Some((deleted, path)) => Some(
                (line_count(added), line_count(deleted), strings::lossy_text(path)),
            ),
        },
    }
}

fn read_count(raw: &[u8]) -> (out: Option<u64>)
    ensures
        out == line_count(raw@),
{
    match strings::parse_unsigned(strings::latin_of(raw).as_str(), u64::MAX) {
        Ok(n) => Some(n),
        Err(_) => None,
    }
}

/// `<added>\t<deleted>\t<path>`, with `-` for both counts on a binary file. The
/// path is everything behind the second tab.
pub fn parse_numstat(line: &[u8]) -> (out: Option<(Option<u64>, Option<u64>, String)>)
    ensures
        match out {
            Some((added, deleted, path)) => numstat(line@) == Some((added, deleted, path@)),
            None => numstat(line@) is None,
        },
{
    match strings::part_bytes(line, TAB) {
        None => None,
        Some((added, rest)) => match strings::part_bytes(rest.as_slice(), TAB) {
            None => None,
            Some((deleted, path)) => Some(
                (
                    read_count(added.as_slice()),
                    read_count(deleted.as_slice()),
                    strings::lossy(path.as_slice()),
                ),
            ),
        },
    }
}

// ---------------------------------------------------------------------------
// The log
// ---------------------------------------------------------------------------

/// A log as far as it has been read: the commits, and each path that they
/// touched, once.
#[verifier::ext_equal]
pub struct LogView {
    pub commits: Seq<LoggedView>,
    pub files: Seq<Text>,
}

pub open spec fn lines_of(count: Option<u64>) -> u64 {
    match count {
        Some(n) => n,
        None => 0,
    }
}

/// A commit that touched one more path. The lines of an ignored path, like
/// those of a binary file, are not counted.
pub open spec fn touching(
    commit: LoggedView,
    added: u64,
    deleted: u64,
    path: Text,
    patterns: Seq<Text>,
) -> LoggedView {
    let counted = !config::ignores(patterns, path);
    LoggedView {
        insertions: commit.insertions.wrapping_add(
            if counted {
                added
            } else {
                0
            },
        ),
        deletions: commit.deletions.wrapping_add(
            if counted {
                deleted
            } else {
                0
            },
        ),
        files: commit.files.push(path),
        ..commit
    }
}

/// The log with one more field read.
pub open spec fn reading(log: LogView, field: Seq<u8>, patterns: Seq<Text>) -> LogView {
    if field.len() == 0 {
        log
    } else if field[0] == RECORD {
        match header(strings::lossy_text(field.skip(1))) {
            Some(commit) => LogView { commits: log.commits.push(commit), ..log },
            None => log,
        }
    } else {
        let line = if field[0] == NEWLINE {
            field.skip(1)
        } else {
            field
        };
        match numstat(line) {
            Some((added, deleted, path)) => if log.commits.len() == 0 {
                log
            } else {
                LogView {
                    commits: log.commits.drop_last().push(
                        touching(
                            log.commits.last(),
                            lines_of(added),
                            lines_of(deleted),
                            path,
                            patterns,
                        ),
                    ),
                    files: if log.files.contains(path) {
                        log.files
                    } else {
                        log.files.push(path)
                    },
                }
            },
            None => log,
        }
    }
}

pub open spec fn log_of(fields: Seq<Seq<u8>>, patterns: Seq<Text>) -> LogView
    decreases fields.len(),
{
    if fields.len() == 0 {
        LogView { commits: Seq::empty(), files: Seq::empty() }
    } else {
        reading(log_of(fields.drop_last(), patterns), fields.last(), patterns)
    }
}

pub open spec fn logged(bytes: Seq<u8>, patterns: Seq<Text>) -> LogView {
    log_of(strings::pieces(bytes, 0), patterns)
}

pub open spec fn added(commits: Seq<LoggedView>) -> u64
    decreases commits.len(),
{
    if commits.len() == 0 {
        0
    } else {
        added(commits.drop_last()).wrapping_add(commits.last().insertions)
    }
}

pub open spec fn removed(commits: Seq<LoggedView>) -> u64
    decreases commits.len(),
{
    if commits.len() == 0 {
        0
    } else {
        removed(commits.drop_last()).wrapping_add(commits.last().deletions)
    }
}

/// The change volume of a log: its paths, each counted once, and the lines of
/// its commits.
pub open spec fn volume(log: LogView, patterns: Seq<Text>) -> Churn {
    Churn {
        files: log.files.len() as usize,
        excluded: log.files.filter(|path: Text| config::ignores(patterns, path)).len() as usize,
        insertions: added(log.commits),
        deletions: removed(log.commits),
    }
}

fn first_line(field: &Vec<u8>) -> (out: Vec<u8>)
    requires
        field@.len() > 0,
    ensures
        out@ == if field@[0] == NEWLINE {
            field@.skip(1)
        } else {
            field@
        },
{
    if field[0] == NEWLINE {
        let out = vstd::slice::slice_to_vec(
            vstd::slice::slice_subrange(field.as_slice(), 1, field.len()),
        );
        assert(out@ =~= field@.skip(1));
        out
    } else {
        vstd::slice::slice_to_vec(field.as_slice())
    }
}

/// Reads one field of the log into what has been read before.
fn read_field(
    commits: &mut Vec<LoggedCommit>,
    files: &mut Vec<String>,
    excluded: &mut usize,
    field: &Vec<u8>,
    ignored: &Ignored,
    Ghost(log): Ghost<LogView>,
)
    requires
        strings::views(old(commits)@) == log.commits,
        strings::views(old(files)@) == log.files,
        *old(excluded) == log.files.filter(|path: Text| config::ignores(ignored@, path)).len(),
    ensures
        ({
            let after = reading(log, field@, ignored@);
            &&& strings::views(final(commits)@) == after.commits
            &&& strings::views(final(files)@) == after.files
            &&& *final(excluded) == after.files.filter(
                |path: Text| config::ignores(ignored@, path),
            ).len()
        }),
{
    broadcast use strings::group_lists;

    if field.len() == 0 {
        return ;
    }
    if field[0] == RECORD {
        let rest = vstd::slice::slice_subrange(field.as_slice(), 1, field.len());
        assert(rest@ =~= field@.skip(1));
        match parse_header(rest) {
            Some(commit) => {
                commits.push(commit);
            },
            None => {},
        }
        return ;
    }
    let line = first_line(field);
    match parse_numstat(line.as_slice()) {
        Some((added, deleted, path)) => match commits.pop() {
            Some(commit) => {
                let mut commit = commit;
                let ghost pred = |path: Text| config::ignores(ignored@, path);
                let skipped = ignored.matches(path.as_str());
                let mut more: u64 = 0;
                let mut less: u64 = 0;
                if !skipped {
                    if let Some(n) = added {
                        more = n;
                    }
                    if let Some(n) = deleted {
                        less = n;
                    }
                }
                proof {
                    reveal(Seq::filter);
                    assert(log.files.push(path@).drop_last() =~= log.files);
                }
                commit.insertions = commit.insertions.wrapping_add(more);
                commit.deletions = commit.deletions.wrapping_add(less);
                if !strings::list_has(files, path.as_str()) {
                    files.push(path.clone());
                    if skipped {
                        proof {
                            log.files.lemma_filter_len(pred);
                            assert(files.len() == log.files.len() + 1);
                        }
                        *excluded = *excluded + 1;
                    }
                }
                commit.files.push(path);
                commits.push(commit);
                assert(strings::views(commits@) =~= log.commits.drop_last().push(commit@));
            },
            None => {},
        },
        None => {},
    }
}

/// [`parse_log`], with the lines of ignored paths left out. An ignored path is
/// still a file that a commit touched.
pub fn parse_log_ignoring(bytes: &[u8], ignored: &Ignored) -> (out: (Vec<LoggedCommit>, Churn))
    ensures
        strings::views(out.0@) == logged(bytes@, ignored@).commits,
        out.1 == volume(logged(bytes@, ignored@), ignored@),
{
    broadcast use strings::group_lists;

    let fields = strings::split_bytes(bytes, 0);
    let ghost all = strings::views(fields@);
    let mut commits: Vec<LoggedCommit> = Vec::new();
    let mut files: Vec<String> = Vec::new();
    let mut excluded: usize = 0;
    proof {
        reveal(Seq::filter);
    }
    for i in 0..fields.len()
        invariant
            all == strings::views(fields@),
            strings::views(commits@) == log_of(all.take(i as int), ignored@).commits,
            strings::views(files@) == log_of(all.take(i as int), ignored@).files,
            excluded == log_of(all.take(i as int), ignored@).files.filter(
                |path: Text| config::ignores(ignored@, path),
            ).len(),
    {
        broadcast use strings::group_lists;

        let ghost log = log_of(all.take(i as int), ignored@);
        assert(all.take(i + 1).drop_last() =~= all.take(i as int));
        assert(all[i as int] == fields@[i as int]@);
        read_field(&mut commits, &mut files, &mut excluded, &fields[i], ignored, Ghost(log));
    }
    assert(all.take(all.len() as int) =~= all);
    let mut insertions: u64 = 0;
    let mut deletions: u64 = 0;
    let ghost done = strings::views(commits@);
    for i in 0..commits.len()
        invariant
            done == strings::views(commits@),
            insertions == added(done.take(i as int)),
            deletions == removed(done.take(i as int)),
    {
        broadcast use strings::group_lists;

        assert(done.take(i + 1).drop_last() =~= done.take(i as int));
        assert(done[i as int] == commits@[i as int]@);
        insertions = insertions.wrapping_add(commits[i].insertions);
        deletions = deletions.wrapping_add(commits[i].deletions);
    }
    assert(done.take(done.len() as int) =~= done);
    let churn = Churn { files: files.len(), excluded, insertions, deletions };
    (commits, churn)
}

/// Splits the `-z` log stream into commits, and sums the churn.
pub fn parse_log(bytes: &[u8]) -> (out: (Vec<LoggedCommit>, Churn))
    ensures
        strings::views(out.0@) == logged(bytes@, Seq::empty()).commits,
        out.1 == volume(logged(bytes@, Seq::empty()), Seq::empty()),
{
    let none: Vec<String> = Vec::new();
    let ignored = Ignored::new(none);
    assert(ignored@ =~= Seq::empty()) by {
        assert(strings::views(none@) =~= Seq::empty());
        reveal_with_fuel(config::tidied, 1);
    }
    parse_log_ignoring(bytes, &ignored)
}

// ---------------------------------------------------------------------------
// Rendering the instants
// ---------------------------------------------------------------------------

/// What the clock showed at an instant, out of the answers for several: the one
/// at the same position, where it is about that instant.
pub open spec fn moment_of(moments: Seq<Moment<Text>>, i: int, epoch: i64) -> Moment<Text> {
    if i < moments.len() && moments[i].epoch == epoch {
        moments[i]
    } else {
        Moment { epoch, civil: None }
    }
}

pub open spec fn dated(commit: LoggedView, moment: Moment<Text>) -> model::CommitView {
    model::CommitView {
        oid: commit.oid,
        author: commit.author,
        committed: clock::stamped(moment),
        subject: commit.subject,
        is_merge: commit.is_merge,
        insertions: commit.insertions,
        deletions: commit.deletions,
        files: commit.files,
    }
}

/// The commits with their instants in local time, as far as it is known.
pub open spec fn all_dated(
    logged: Seq<LoggedView>,
    moments: Seq<Moment<Text>>,
) -> Seq<model::CommitView> {
    Seq::new(
        logged.len(),
        |i: int| dated(logged[i], moment_of(moments, i, logged[i].committed)),
    )
}

/// The commits with their instants in local time. `moments` holds, for each
/// commit, what the local clock shows at it.
pub fn date_commits(logged: &Vec<LoggedCommit>, moments: &Vec<Moment>) -> (out: Vec<Commit>)
    ensures
        strings::views(out@) == all_dated(strings::views(logged@), strings::views(moments@)),
{
    broadcast use strings::group_lists;

    let ghost all = all_dated(strings::views(logged@), strings::views(moments@));
    let mut out: Vec<Commit> = Vec::new();
    for i in 0..logged.len()
        invariant
            all == all_dated(strings::views(logged@), strings::views(moments@)),
            strings::views(out@) == all.take(i as int),
    {
        broadcast use strings::group_lists;

        let commit = &logged[i];
        let committed = if i < moments.len() && moments[i].epoch == commit.committed {
            clock::stamp(&moments[i])
        } else {
            clock::stamp(&Moment { epoch: commit.committed, civil: None })
        };
        assert(strings::views(logged@)[i as int] == commit@);
        assert(i < moments@.len() ==> strings::views(moments@)[i as int] == moments@[i as int]@);
        out.push(
            Commit {
                oid: commit.oid.clone(),
                author: commit.author.clone(),
                committed,
                subject: commit.subject.clone(),
                is_merge: commit.is_merge,
                insertions: commit.insertions,
                deletions: commit.deletions,
                files: strings::clone_list(&commit.files),
            },
        );
        assert(all.take(i as int).push(all[i as int]) =~= all.take(i + 1));
    }
    assert(all.take(all.len() as int) =~= all);
    out
}

/// The instants of the commits.
pub open spec fn instants(logged: Seq<LoggedView>) -> Seq<i64> {
    Seq::new(logged.len(), |i: int| logged[i].committed)
}

pub fn instants_of(logged: &Vec<LoggedCommit>) -> (out: Vec<i64>)
    ensures
        out@ == instants(strings::views(logged@)),
{
    let ghost all = instants(strings::views(logged@));
    let mut out: Vec<i64> = Vec::new();
    for i in 0..logged.len()
        invariant
            all == instants(strings::views(logged@)),
            out@ == all.take(i as int),
    {
        assert(strings::views(logged@)[i as int] == logged@[i as int]@);
        out.push(logged[i].committed);
        assert(all.take(i as int).push(all[i as int]) =~= all.take(i + 1));
    }
    assert(all.take(all.len() as int) =~= all);
    out
}

// ---------------------------------------------------------------------------
// Status and shortstat
// ---------------------------------------------------------------------------

/// How many files a `status --porcelain=v2 -z` stream reports as changed,
/// untracked and conflicted. A rename or copy record takes two fields: the new
/// path, then the original one, which is no record of its own.
pub open spec fn status_from(
    fields: Seq<Seq<u8>>,
    from: int,
) -> (nat, nat, nat)
    decreases fields.len() + 1 - from,
{
    if from < 0 || from >= fields.len() {
        (0, 0, 0)
    } else if fields[from].len() == 0 {
        status_from(fields, from + 1)
    } else {
        let kind = fields[from][0];
        let rest = status_from(
            fields,
            if kind == 0x32 {
                from + 2
            } else {
                from + 1
            },
        );
        if kind == 0x31 || kind == 0x32 {
            (rest.0 + 1, rest.1, rest.2)
        } else if kind == 0x3f {
            (rest.0, rest.1 + 1, rest.2)
        } else if kind == 0x75 {
            (rest.0, rest.1, rest.2 + 1)
        } else {
            rest
        }
    }
}

/// The counts of changed, untracked and conflicted files in a status stream.
pub fn parse_status(bytes: &[u8]) -> (out: (usize, usize, usize))
    ensures
        (out.0 as nat, out.1 as nat, out.2 as nat) == status_from(strings::pieces(bytes@, 0), 0),
{
    let fields = strings::split_bytes(bytes, 0);
    let ghost all = strings::views(fields@);
    let mut changed: usize = 0;
    let mut untracked: usize = 0;
    let mut conflicted: usize = 0;
    let mut index: usize = 0;
    while index < fields.len()
        invariant
            all == strings::views(fields@),
            index <= fields@.len() + 1,
            changed + untracked + conflicted <= index,
            ({
                let rest = status_from(all, index as int);
                let whole = status_from(all, 0);
                &&& whole.0 == changed + rest.0
                &&& whole.1 == untracked + rest.1
                &&& whole.2 == conflicted + rest.2
            }),
        decreases fields@.len() + 1 - index,
    {
        let field = &fields[index];
        assert(all[index as int] == field@);
        proof {
            reveal_with_fuel(status_from, 2);
        }
        index = index + 1;
        if field.len() > 0 {
            let kind = field[0];
            if kind == 0x31 {
                changed = changed + 1;
            } else if kind == 0x32 {
                changed = changed + 1;
                if index < fields.len() {
                    index = index + 1;
                }
            } else if kind == 0x75 {
                conflicted = conflicted + 1;
            } else if kind == 0x3f {
                untracked = untracked + 1;
            }
        }
    }
    (changed, untracked, conflicted)
}

/// A count as it stands in front of a word, with or without a comma behind it.
pub open spec fn count_word(word: Text) -> Option<u64> {
    match strings::unsigned_value(strings::without_trailing(word, ','), u64::MAX as nat) {
        Ok(n) => Some(n as u64),
        Err(_) => None,
    }
}

/// The number standing in front of a word, 0 where there is none.
pub open spec fn before_word(words: Seq<Text>, i: int) -> u64 {
    if i == 0 {
        0
    } else {
        lines_of(count_word(words[i - 1]))
    }
}

/// The insertions and deletions a shortstat line states: the number in front of
/// the last word that begins with `insertion`, and of the last other word that
/// begins with `deletion`.
pub open spec fn shortstat(words: Seq<Text>) -> (u64, u64)
    decreases words.len(),
{
    if words.len() == 0 {
        (0, 0)
    } else {
        let before = shortstat(words.drop_last());
        let n = before_word(words, words.len() - 1);
        if strings::begins(words.last(), "insertion"@) {
            (n, before.1)
        } else if strings::begins(words.last(), "deletion"@) {
            (before.0, n)
        } else {
            before
        }
    }
}

/// ` 3 files changed, 12 insertions(+), 4 deletions(-)`, with either half
/// absent.
pub fn parse_shortstat(text: &str) -> (out: (u64, u64))
    ensures
        out == shortstat(strings::words(text@)),
{
    broadcast use strings::group_lists;

    let words = strings::split_words(text);
    let ghost all = strings::views(words@);
    let mut insertions: u64 = 0;
    let mut deletions: u64 = 0;
    let mut previous: Option<u64> = None;
    for i in 0..words.len()
        invariant
            all == strings::views(words@),
            (insertions, deletions) == shortstat(all.take(i as int)),
            previous == if i == 0 {
                None
            } else {
                count_word(all[i - 1])
            },
    {
        broadcast use strings::group_lists;

        let word = words[i].as_str();
        assert(all.take(i + 1).drop_last() =~= all.take(i as int));
        assert(all[i as int] == word@);
        let before: u64 = match previous {
            Some(n) => n,
            None => 0,
        };
        if strings::starts_with(word, "insertion") {
            insertions = before;
        } else if strings::starts_with(word, "deletion") {
            deletions = before;
        }
        previous = match strings::parse_unsigned(
            strings::trim_end_of(word, ',').as_str(),
            u64::MAX,
        ) {
            Ok(n) => Some(n),
            Err(_) => None,
        };
    }
    assert(all.take(all.len() as int) =~= all);
    (insertions, deletions)
}

// ---------------------------------------------------------------------------
// Laws
// ---------------------------------------------------------------------------

/// Whether some commit touched the path.
pub open spec fn touches(commits: Seq<LoggedView>, path: Text) -> bool {
    exists|i: int| 0 <= i < commits.len() && (#[trigger] commits[i]).files.contains(path)
}

/// The files of a log are the union of the paths its commits touched: a path
/// touched by several of them is there once.
pub proof fn law_files_are_the_union_of_paths(fields: Seq<Seq<u8>>, patterns: Seq<Text>)
    ensures
        log_of(fields, patterns).files.no_duplicates(),
        forall|path: Text|
            #![trigger log_of(fields, patterns).files.contains(path)]
            log_of(fields, patterns).files.contains(path) <==> touches(
                log_of(fields, patterns).commits,
                path,
            ),
    decreases fields.len(),
{
    if fields.len() > 0 {
        law_files_are_the_union_of_paths(fields.drop_last(), patterns);
        let log = log_of(fields.drop_last(), patterns);
        let field = fields.last();
        let after = reading(log, field, patterns);
        assert forall|path: Text|
            #![trigger after.files.contains(path)]
            after.files.contains(path) <==> touches(after.commits, path) by {
            lemma_touches(log, field, patterns, path);
        }
    }
}

proof fn lemma_touches(log: LogView, field: Seq<u8>, patterns: Seq<Text>, path: Text)
    requires
        log.files.contains(path) <==> touches(log.commits, path),
    ensures
        ({
            let after = reading(log, field, patterns);
            after.files.contains(path) <==> touches(after.commits, path)
        }),
{
    let after = reading(log, field, patterns);
    if after == log {
    } else if field[0] == RECORD {
        let n = log.commits.len() as int;
        if touches(log.commits, path) {
            let i = choose|i: int|
                0 <= i < log.commits.len() && (#[trigger] log.commits[i]).files.contains(path);
            assert(after.commits[i].files.contains(path));
        }
        if touches(after.commits, path) {
            let i = choose|i: int|
                0 <= i < after.commits.len() && (#[trigger] after.commits[i]).files.contains(path);
            assert(after.commits[n].files.len() == 0);
            assert(log.commits[i].files.contains(path));
        }
    } else {
        let line = if field[0] == NEWLINE {
            field.skip(1)
        } else {
            field
        };
        let found = numstat(line)->0;
        let new = found.2;
        let n = log.commits.len() - 1;
        let was = log.commits[n].files;
        assert(after.commits[n].files == was.push(new));
        assert(was.push(new)[was.len() as int] == new);
        assert(after.files.contains(path) <==> log.files.contains(path) || path == new) by {
            if log.files.contains(path) {
                let k = choose|k: int| 0 <= k < log.files.len() && log.files[k] == path;
                assert(after.files[k] == path);
            }
            if !log.files.contains(new) {
                assert(after.files[log.files.len() as int] == new);
            }
        }
        if touches(log.commits, path) {
            let i = choose|i: int|
                0 <= i < log.commits.len() && (#[trigger] log.commits[i]).files.contains(path);
            if i == n {
                let k = choose|k: int| 0 <= k < was.len() && was[k] == path;
                assert(was.push(new)[k] == path);
            }
            assert(after.commits[i].files.contains(path));
        }
        if touches(after.commits, path) && path != new {
            let i = choose|i: int|
                0 <= i < after.commits.len() && (#[trigger] after.commits[i]).files.contains(path);
            if i == n {
                let k = choose|k: int| 0 <= k < was.push(new).len() && was.push(new)[k] == path;
                assert(was[k] == path);
            }
            assert(log.commits[i].files.contains(path));
        }
        if path == new {
            assert(after.commits[n].files.contains(path));
        }
    }
}

/// An ignored path is a file touched and adds no lines.
pub proof fn law_ignored_paths_add_no_lines(
    commit: LoggedView,
    more: u64,
    less: u64,
    path: Text,
    patterns: Seq<Text>,
)
    requires
        config::ignores(patterns, path),
    ensures
        ({
            let after = touching(commit, more, less, path, patterns);
            &&& after.insertions == commit.insertions
            &&& after.deletions == commit.deletions
            &&& after.files == commit.files.push(path)
        }),
{
}

/// A commit is a merge exactly where its record names two parents: where white
/// space stands between two characters of the field that are none. The other
/// fields are taken over, and a record alone touches no file.
pub proof fn law_a_merge_has_two_parents(
    oid: Text,
    parents: Text,
    author: Text,
    when: Text,
    subject: Text,
)
    requires
        !oid.contains(UNIT),
        !parents.contains(UNIT),
        !author.contains(UNIT),
        !when.contains(UNIT),
        strings::signed_value(strings::trimmed(when)) is Ok,
    ensures
        ({
            let record = oid.push(UNIT) + (parents.push(UNIT) + (author.push(UNIT) + (when.push(
                UNIT,
            ) + subject)));
            let commit = header(record)->0;
            &&& header(record) is Some
            &&& commit.is_merge <==> exists|i: int, j: int, k: int|
                0 <= i < j < k < parents.len() && !strings::white(#[trigger] parents[i])
                    && strings::white(#[trigger] parents[j]) && !strings::white(
                    #[trigger] parents[k],
                )
            &&& commit.files.len() == 0
            &&& commit.insertions == 0
            &&& commit.deletions == 0
        }),
{
    let rest3 = when.push(UNIT) + subject;
    let rest2 = author.push(UNIT) + rest3;
    let rest1 = parents.push(UNIT) + rest2;
    strings::lemma_parted_pair(oid, rest1, UNIT);
    strings::lemma_parted_pair(parents, rest2, UNIT);
    strings::lemma_parted_pair(author, rest3, UNIT);
    strings::lemma_parted_pair(when, subject, UNIT);
    strings::law_words_are_runs(parents);
}

/// One parent, or none, makes no merge; two with a space between them do.
pub proof fn law_one_parent_makes_no_merge(
    oid: Text,
    first: Text,
    second: Text,
    author: Text,
    when: Text,
    subject: Text,
)
    requires
        !oid.contains(UNIT),
        !author.contains(UNIT),
        !when.contains(UNIT),
        strings::signed_value(strings::trimmed(when)) is Ok,
        forall|i: int|
            0 <= i < first.len() ==> !strings::white(#[trigger] first[i]) && first[i] != UNIT,
        forall|i: int|
            0 <= i < second.len() ==> !strings::white(#[trigger] second[i]) && second[i] != UNIT,
        second.len() > 0,
    ensures
        ({
            let behind = author.push(UNIT) + (when.push(UNIT) + subject);
            let one = oid.push(UNIT) + (first.push(UNIT) + behind);
            let two = oid.push(UNIT) + ((first.push(' ') + second).push(UNIT) + behind);
            &&& header(one) is Some && !header(one)->0.is_merge
            &&& header(two) is Some && (header(two)->0.is_merge <==> first.len() > 0)
        }),
{
    let both = first.push(' ') + second;
    assert forall|i: int| 0 <= i < both.len() implies both[i] != UNIT by {
        if i < first.len() {
            assert(first[i] != UNIT);
        } else if i > first.len() {
            assert(second[i - first.len() - 1] != UNIT);
        }
    }
    assert(!both.contains(UNIT) && !first.contains(UNIT));
    law_a_merge_has_two_parents(oid, first, author, when, subject);
    law_a_merge_has_two_parents(oid, both, author, when, subject);
    assert(strings::white(' '));
    let n = first.len() as int;
    if n > 0 {
        assert(!strings::white(first[0]) && both[0] == first[0]);
        assert(!strings::white(second[0]) && both[n + 1] == second[0]);
        assert(!strings::white(both[0]) && strings::white(both[n]) && !strings::white(both[n + 1]));
    } else {
        assert forall|j: int| 1 <= j < both.len() implies !strings::white(#[trigger] both[j]) by {
            assert(both[j] == second[j - 1]);
        }
    }
}

/// A line of `--numstat` states the lines added, the lines removed and the path,
/// whatever the path holds.
pub proof fn law_a_numstat_line_states_its_counts(
    first: Seq<u8>,
    second: Seq<u8>,
    path: Seq<u8>,
    added: nat,
    deleted: nat,
)
    requires
        added <= u64::MAX,
        deleted <= u64::MAX,
        strings::latin(first) == strings::decimal(added),
        strings::latin(second) == strings::decimal(deleted),
    ensures
        numstat(first.push(TAB) + (second.push(TAB) + path)) == Some(
            (Some(added as u64), Some(deleted as u64), strings::lossy_text(path)),
        ),
{
    lemma_digits_hold_no_tab(first, added);
    lemma_digits_hold_no_tab(second, deleted);
    strings::lemma_parted_pair(first, second.push(TAB) + path, TAB);
    strings::lemma_parted_pair(second, path, TAB);
    strings::law_a_written_number_reads_back(added, u64::MAX as nat);
    strings::law_a_written_number_reads_back(deleted, u64::MAX as nat);
}

proof fn lemma_digits_hold_no_tab(raw: Seq<u8>, n: nat)
    requires
        strings::latin(raw) == strings::decimal(n),
    ensures
        !raw.contains(TAB),
        raw.len() > 0,
        raw[0] != RECORD && raw[0] != NEWLINE,
{
    strings::lemma_decimal_digits(n);
    assert(strings::latin(raw).len() == raw.len());
    assert forall|i: int| 0 <= i < raw.len() implies 0x30 <= #[trigger] raw[i] <= 0x39 by {
        assert(strings::latin(raw)[i] == raw[i] as char);
        assert(strings::digit(strings::decimal(n)[i]));
    }
}

/// A binary file, with a dash in place of both counts, is a path without counts.
pub proof fn law_a_binary_file_states_no_counts(path: Seq<u8>)
    ensures
        numstat(seq![0x2du8].push(TAB) + (seq![0x2du8].push(TAB) + path)) == Some(
            (None::<u64>, None::<u64>, strings::lossy_text(path)),
        ),
{
    let dash = seq![0x2du8];
    assert(!dash.contains(TAB));
    strings::lemma_parted_pair(dash, dash.push(TAB) + path, TAB);
    strings::lemma_parted_pair(dash, path, TAB);
    let shown = strings::latin(dash);
    assert(shown[0] == '-');
    assert(!strings::digit(shown[0]));
    assert(shown.drop_last() =~= Seq::empty());
    assert(strings::digits_value(shown.drop_last(), u64::MAX as nat) == Ok::<
        nat,
        strings::NumberError,
    >(0));
    assert(strings::unsigned_value(shown, u64::MAX as nat) is Err);
}

/// The lines of a file go to the commit whose record stands before it, which is
/// the last one read, and to no other; and the file is one it touched. The first
/// line behind a record has a line break in front of it.
pub proof fn law_a_file_goes_to_the_commit_before_it(
    fields: Seq<Seq<u8>>,
    first: Seq<u8>,
    second: Seq<u8>,
    path: Seq<u8>,
    added: nat,
    deleted: nat,
    broken: bool,
    patterns: Seq<Text>,
)
    requires
        added <= u64::MAX,
        deleted <= u64::MAX,
        strings::latin(first) == strings::decimal(added),
        strings::latin(second) == strings::decimal(deleted),
        log_of(fields, patterns).commits.len() > 0,
    ensures
        ({
            let line = first.push(TAB) + (second.push(TAB) + path);
            let field = if broken {
                seq![0x0au8] + line
            } else {
                line
            };
            let before = log_of(fields, patterns).commits;
            let after = log_of(fields.push(field), patterns).commits;
            let name = strings::lossy_text(path);
            let ignored = config::ignores(patterns, name);
            &&& after.len() == before.len()
            &&& after.drop_last() == before.drop_last()
            &&& after.last().oid == before.last().oid
            &&& after.last().author == before.last().author
            &&& after.last().committed == before.last().committed
            &&& after.last().subject == before.last().subject
            &&& after.last().is_merge == before.last().is_merge
            &&& after.last().files == before.last().files.push(name)
            &&& after.last().insertions == if ignored {
                before.last().insertions
            } else {
                before.last().insertions.wrapping_add(added as u64)
            }
            &&& after.last().deletions == if ignored {
                before.last().deletions
            } else {
                before.last().deletions.wrapping_add(deleted as u64)
            }
        }),
{
    let line = first.push(TAB) + (second.push(TAB) + path);
    let field = if broken {
        seq![0x0au8] + line
    } else {
        line
    };
    lemma_digits_hold_no_tab(first, added);
    law_a_numstat_line_states_its_counts(first, second, path, added, deleted);
    assert(line[0] == first[0]);
    assert(fields.push(field).drop_last() =~= fields);
    assert((seq![0x0au8] + line).skip(1) =~= line);
    let before = log_of(fields, patterns).commits;
    let after = log_of(fields.push(field), patterns).commits;
    assert(after.drop_last() =~= before.drop_last());
}

/// Each record that reads as a commit adds that commit behind those before it;
/// anything else leaves the number of commits as it is.
pub proof fn law_each_record_adds_one_commit(
    fields: Seq<Seq<u8>>,
    field: Seq<u8>,
    patterns: Seq<Text>,
)
    ensures
        ({
            let before = log_of(fields, patterns).commits;
            let after = log_of(fields.push(field), patterns).commits;
            let read = header(strings::lossy_text(field.skip(1)));
            if field.len() > 0 && field[0] == 0x1eu8 && read is Some {
                after == before.push(read->0)
            } else {
                after.len() == before.len()
            }
        }),
{
    assert(fields.push(field).drop_last() =~= fields);
}

/// The lines of a log are those of its commits, added up.
pub proof fn law_the_lines_of_a_log_add_up(a: Seq<LoggedView>, b: Seq<LoggedView>, one: LoggedView)
    ensures
        added(a + b) == added(a).wrapping_add(added(b)),
        removed(a + b) == removed(a).wrapping_add(removed(b)),
        added(seq![one]) == one.insertions,
        removed(seq![one]) == one.deletions,
        added(Seq::empty()) == 0,
        removed(Seq::empty()) == 0,
    decreases b.len(),
{
    assert(seq![one].drop_last() =~= Seq::empty());
    assert(added(seq![one].drop_last()) == 0);
    assert(removed(seq![one].drop_last()) == 0);
    if b.len() == 0 {
        assert(a + b =~= a);
    } else {
        law_the_lines_of_a_log_add_up(a, b.drop_last(), one);
        assert((a + b).drop_last() =~= a + b.drop_last());
        assert((a + b).last() == b.last());
    }
}

/// The volume of a log: as many files as there are paths that its commits
/// touched, and the lines of its commits.
pub proof fn law_the_volume_of_a_log_is_what_it_holds(fields: Seq<Seq<u8>>, patterns: Seq<Text>)
    requires
        log_of(fields, patterns).files.len() <= usize::MAX,
    ensures
        ({
            let log = log_of(fields, patterns);
            let volume = volume(log, patterns);
            &&& volume.files == log.files.to_set().len()
            &&& volume.excluded <= volume.files
            &&& volume.insertions == added(log.commits)
            &&& volume.deletions == removed(log.commits)
            &&& patterns.len() == 0 ==> volume.excluded == 0
        }),
{
    let log = log_of(fields, patterns);
    law_files_are_the_union_of_paths(fields, patterns);
    log.files.unique_seq_to_set();
    let pred = |path: Text| config::ignores(patterns, path);
    lemma_filter_is_no_longer(log.files, pred);
    if patterns.len() == 0 {
        assert forall|i: int| 0 <= i < log.files.len() implies !pred(#[trigger] log.files[i]) by {
            config::law_an_empty_list_matches_nothing(log.files[i]);
            assert(patterns =~= Seq::empty());
        }
        lemma_filter_of_none(log.files, pred);
    }
}

proof fn lemma_filter_is_no_longer(items: Seq<Text>, pred: spec_fn(Text) -> bool)
    ensures
        items.filter(pred).len() <= items.len(),
    decreases items.len(),
{
    reveal(Seq::filter);
    if items.len() > 0 {
        lemma_filter_is_no_longer(items.drop_last(), pred);
    }
}

proof fn lemma_filter_of_none(items: Seq<Text>, pred: spec_fn(Text) -> bool)
    requires
        forall|i: int| 0 <= i < items.len() ==> !pred(#[trigger] items[i]),
    ensures
        items.filter(pred).len() == 0,
    decreases items.len(),
{
    reveal(Seq::filter);
    if items.len() > 0 {
        let rest = items.drop_last();
        assert forall|i: int| 0 <= i < rest.len() implies !pred(#[trigger] rest[i]) by {
            assert(rest[i] == items[i]);
        }
        lemma_filter_of_none(rest, pred);
    }
}

/// Rendering the instants of commits changes nothing else about them: none is
/// dropped or moved, and each keeps its instant.
pub proof fn law_dating_keeps_the_commits(logged: Seq<LoggedView>, moments: Seq<Moment<Text>>, i: int)
    requires
        0 <= i < logged.len(),
    ensures
        all_dated(logged, moments).len() == logged.len(),
        ({
            let commit = all_dated(logged, moments)[i];
            &&& commit.oid == logged[i].oid
            &&& commit.author == logged[i].author
            &&& commit.subject == logged[i].subject
            &&& commit.is_merge == logged[i].is_merge
            &&& commit.insertions == logged[i].insertions
            &&& commit.deletions == logged[i].deletions
            &&& commit.files == logged[i].files
            &&& commit.committed.epoch == logged[i].committed
        }),
        i < moments.len() && moments[i].epoch == logged[i].committed ==> all_dated(
            logged,
            moments,
        )[i].committed == clock::stamped(moments[i]),
{
}

/// The records of a status stream are counted one by one, each under its kind:
/// `1` and `2` for a changed file, `?` for an untracked one, `u` for a conflict.
/// The original path behind a rename is no record.
pub proof fn law_each_status_record_is_counted_once(
    record: Seq<u8>,
    original: Seq<u8>,
    rest: Seq<Seq<u8>>,
)
    requires
        record.len() > 0,
    ensures
        ({
            let kind = record[0];
            let with = if kind == 0x32u8 {
                status_from(seq![record, original] + rest, 0)
            } else {
                status_from(seq![record] + rest, 0)
            };
            let without = status_from(rest, 0);
            &&& with.0 == without.0 + if kind == 0x31u8 || kind == 0x32u8 {
                1nat
            } else {
                0
            }
            &&& with.1 == without.1 + if kind == 0x3fu8 {
                1nat
            } else {
                0
            }
            &&& with.2 == without.2 + if kind == 0x75u8 {
                1nat
            } else {
                0
            }
        }),
{
    lemma_status_shift(seq![record], rest, 0);
    lemma_status_shift(seq![record, original], rest, 0);
}

proof fn lemma_status_shift(front: Seq<Seq<u8>>, rest: Seq<Seq<u8>>, from: int)
    requires
        0 <= from,
    ensures
        status_from(front + rest, front.len() + from) == status_from(rest, from),
    decreases rest.len() + 2 - from,
{
    let all = front + rest;
    if from < rest.len() {
        assert(all[front.len() + from] == rest[from]);
        lemma_status_shift(front, rest, from + 1);
        lemma_status_shift(front, rest, from + 2);
    }
}

/// An empty field of a status stream is no record.
pub proof fn law_an_empty_field_is_no_status_record(rest: Seq<Seq<u8>>)
    ensures
        status_from(seq![Seq::<u8>::empty()] + rest, 0) == status_from(rest, 0),
        status_from(Seq::empty(), 0) == (0nat, 0nat, 0nat),
{
    lemma_status_shift(seq![Seq::<u8>::empty()], rest, 0);
}

/// A shortstat line states its insertions and its deletions, whatever the
/// numbers are; a half that is absent is none.
pub proof fn law_a_shortstat_line_states_its_counts(
    files: Text,
    changed: Text,
    more: nat,
    less: nat,
)
    requires
        more <= u64::MAX,
        less <= u64::MAX,
        !strings::begins(files, "insertion"@) && !strings::begins(files, "deletion"@),
        !strings::begins(changed, "insertion"@) && !strings::begins(changed, "deletion"@),
    ensures
        ({
            let start = seq![files, changed];
            let added = seq![strings::decimal(more), "insertions(+),"@];
            let last = seq![strings::decimal(more), "insertion(+)"@];
            let removed = seq![strings::decimal(less), "deletions(-)"@];
            &&& shortstat(start) == (0u64, 0u64)
            &&& shortstat(start + last) == (more as u64, 0u64)
            &&& shortstat(start + removed) == (0u64, less as u64)
            &&& shortstat(start + added + removed) == (more as u64, less as u64)
        }),
{
    reveal_strlit("insertion");
    reveal_strlit("deletion");
    reveal_strlit("insertions(+),");
    reveal_strlit("insertion(+)");
    reveal_strlit("deletions(-)");
    assert("insertions(+),"@.take(9) =~= "insertion"@);
    assert("insertion(+)"@.take(9) =~= "insertion"@);
    assert("deletions(-)"@.take(8) =~= "deletion"@);
    assert("deletions(-)"@.take(9)[0] != "insertion"@[0]);
    lemma_number_word(more);
    lemma_number_word(less);
    let start = seq![files, changed];
    assert(start.drop_last() =~= seq![files]);
    assert(seq![files].drop_last() =~= Seq::empty());
    assert(shortstat(seq![files].drop_last()) == (0u64, 0u64));
    assert(shortstat(seq![files]) == (0u64, 0u64));
    assert(shortstat(start) == (0u64, 0u64));
    lemma_counted_word(start, more, "insertions(+),"@);
    lemma_counted_word(start, more, "insertion(+)"@);
    lemma_counted_word(start, less, "deletions(-)"@);
    let both = start + seq![strings::decimal(more), "insertions(+),"@];
    lemma_counted_word(both, less, "deletions(-)"@);
}

proof fn lemma_number_word(n: nat)
    requires
        n <= u64::MAX,
    ensures
        count_word(strings::decimal(n)) == Some(n as u64),
        !strings::begins(strings::decimal(n), "insertion"@),
        !strings::begins(strings::decimal(n), "deletion"@),
{
    reveal_strlit("insertion");
    reveal_strlit("deletion");
    let word = strings::decimal(n);
    strings::lemma_decimal_digits(n);
    strings::law_a_written_number_reads_back(n, u64::MAX as nat);
    assert(strings::digit(word[0]) && strings::digit(word[word.len() - 1]));
    assert(word.last() != ',');
    assert(strings::without_trailing(word, ',') == word);
    if strings::begins(word, "insertion"@) {
        assert(word.take(9)[0] == word[0]);
    }
    if strings::begins(word, "deletion"@) {
        assert(word.take(8)[0] == word[0]);
    }
}

proof fn lemma_counted_word(start: Seq<Text>, n: nat, word: Text)
    requires
        n <= u64::MAX,
    ensures
        ({
            let before = shortstat(start);
            shortstat(start + seq![strings::decimal(n), word]) == if strings::begins(
                word,
                "insertion"@,
            ) {
                (n as u64, before.1)
            } else if strings::begins(word, "deletion"@) {
                (before.0, n as u64)
            } else {
                before
            }
        }),
{
    lemma_number_word(n);
    let all = start + seq![strings::decimal(n), word];
    let shorter = start.push(strings::decimal(n));
    assert(all.drop_last() =~= shorter);
    assert(shorter.drop_last() =~= start);
    assert(shorter.last() == strings::decimal(n));
    assert(shortstat(shorter) == shortstat(start));
    assert(all[all.len() - 2] == strings::decimal(n));
    assert(all.last() == word);
    assert(before_word(all, all.len() - 1) == n as u64);
}

} // verus!
