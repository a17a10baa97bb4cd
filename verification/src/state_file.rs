//! Replacing files in the plugin's state directory.
//!
//! The bytes go to a temporary file beside the target, are put on disk, and are
//! then renamed over it; the directory is synced afterwards, so that the new
//! name is durable too. A half-written file would be worse than a missing one.

use vstd::prelude::*;

use crate::model::Text;
use crate::strings;

verus! {

/// How an attempt to lock the directory ended.
#[derive(Debug, Clone, Copy, PartialEq, Eq, Structural)]
pub enum Attempt {
    Acquired,
    /// A signal came in between.
    Interrupted,
    Failed,
}

/// Whether to try again: an interrupted attempt says nothing about the lock.
pub fn retry_interrupted(attempt: Attempt) -> (again: bool)
    ensures
        again == (attempt is Interrupted),
{
    match attempt {
        Attempt::Interrupted => true,
        Attempt::Acquired | Attempt::Failed => false,
    }
}

/// The steps of a replacement, in order.
#[derive(Debug, Clone, Copy, PartialEq, Eq, Structural)]
pub enum Stage {
    /// Making the state directory.
    Directory,
    /// Writing the temporary file.
    Write,
    /// Renaming it over the target.
    Rename,
    /// Syncing the directory.
    Sync,
}

/// Whether a failure at this stage leaves a temporary file to be removed.
pub fn leaves_temporary(stage: Stage) -> (answer: bool)
    ensures
        answer == (stage is Write || stage is Rename),
{
    match stage {
        Stage::Write | Stage::Rename => true,
        Stage::Directory | Stage::Sync => false,
    }
}

pub open spec fn fault_text(stage: Stage, path: Text, dir: Text, temp: Text, error: Text) -> Text {
    match stage {
        Stage::Directory => "could not create the state directory "@ + dir + ": "@ + error,
        Stage::Write => "could not write "@ + temp + ": "@ + error,
        Stage::Rename => "could not replace "@ + path + ": "@ + error,
        Stage::Sync => "could not make replacement of "@ + path
            + " durable by syncing containing directory "@ + dir + ": "@ + error,
    }
}

/// Why a replacement failed.
pub fn explain(stage: Stage, path: &str, dir: &str, temp: &str, error: &str) -> (out: String)
    ensures
        out@ == fault_text(stage, path@, dir@, temp@, error@),
{
    match stage {
        Stage::Directory => strings::cat4("could not create the state directory ", dir, ": ", error),
        Stage::Write => strings::cat4("could not write ", temp, ": ", error),
        Stage::Rename => strings::cat4("could not replace ", path, ": ", error),
        Stage::Sync => {
            let start = strings::cat4(
                "could not make replacement of ",
                path,
                " durable by syncing containing directory ",
                dir,
            );
            strings::cat3(start.as_str(), ": ", error)
        },
    }
}

pub open spec fn temporary_name(label: Text, process: nat, number: nat) -> Text {
    "."@ + label + "."@ + strings::decimal(process) + "."@ + strings::decimal(number) + ".tmp"@
}

/// The name of a temporary file. `label` says what it was, `process` and
/// `number` keep two writes from clobbering each other.
pub fn temp_name(label: &str, process: u32, number: u64) -> (out: String)
    ensures
        out@ == temporary_name(label@, process as nat, number as nat),
{
    let start = strings::cat4(".", label, ".", strings::number(process as u64).as_str());
    strings::cat4(start.as_str(), ".", strings::number(number).as_str(), ".tmp")
}

/// A replacement that failed is told with what it was about and why.
pub proof fn law_a_failed_replacement_is_told_in_full(
    stage: Stage,
    path: Text,
    dir: Text,
    temp: Text,
    error: Text,
)
    ensures
        ({
            let told = fault_text(stage, path, dir, temp, error);
            &&& strings::ends(told, ": "@ + error)
            &&& match stage {
                Stage::Directory => strings::holds(told, dir),
                Stage::Write => strings::holds(told, temp),
                Stage::Rename => strings::holds(told, path),
                Stage::Sync => strings::holds(told, path) && strings::holds(told, dir),
            }
        }),
{
    broadcast use strings::lemma_holds_together;

    strings::lemma_holds_itself(path);
    strings::lemma_holds_itself(dir);
    strings::lemma_holds_itself(temp);
    let told = fault_text(stage, path, dir, temp, error);
    let tail = ": "@ + error;
    assert(told.skip(told.len() - tail.len()) =~= tail);
}

/// Two writes never share a temporary file: another process or another number is
/// another name.
pub proof fn law_two_writes_have_two_names(
    label: Text,
    process: nat,
    number: nat,
    other_process: nat,
    other_number: nat,
)
    requires
        temporary_name(label, process, number) == temporary_name(
            label,
            other_process,
            other_number,
        ),
    ensures
        process == other_process,
        number == other_number,
{
    reveal_strlit(".");
    reveal_strlit(".tmp");
    let start = "."@ + label + "."@;
    let (p, n) = (strings::decimal(process), strings::decimal(number));
    let (q, m) = (strings::decimal(other_process), strings::decimal(other_number));
    let left = p.push('.') + n + ".tmp"@;
    let right = q.push('.') + m + ".tmp"@;
    assert(temporary_name(label, process, number) =~= start + left);
    assert(temporary_name(label, other_process, other_number) =~= start + right);
    assert((start + left).skip(start.len() as int) =~= left);
    assert((start + right).skip(start.len() as int) =~= right);
    assert(left == right);
    assert(left =~= p.push('.') + (n + ".tmp"@));
    assert(right =~= q.push('.') + (m + ".tmp"@));
    lemma_digits_end_at_the_dot(process, n + ".tmp"@, other_process, m + ".tmp"@);
    let (a, b) = (n + ".tmp"@, m + ".tmp"@);
    assert(left.skip(p.push('.').len() as int) =~= a);
    assert(right.skip(q.push('.').len() as int) =~= b);
    assert(a.take(a.len() - 4) =~= n);
    assert(b.take(a.len() - 4) =~= m);
    strings::law_a_written_number_reads_back(number, number + other_number);
    strings::law_a_written_number_reads_back(other_number, number + other_number);
}

proof fn lemma_digits_end_at_the_dot(process: nat, a: Text, other: nat, b: Text)
    requires
        strings::decimal(process).push('.') + a == strings::decimal(other).push('.') + b,
    ensures
        process == other,
{
    let (p, q) = (strings::decimal(process), strings::decimal(other));
    let left = p.push('.') + a;
    let right = q.push('.') + b;
    strings::lemma_decimal_digits(process);
    strings::lemma_decimal_digits(other);
    if p.len() < q.len() {
        assert(left[p.len() as int] == '.');
        assert(right[p.len() as int] == q[p.len() as int]);
        assert(strings::digit(q[p.len() as int]));
    }
    if q.len() < p.len() {
        assert(right[q.len() as int] == '.');
        assert(left[q.len() as int] == p[q.len() as int]);
        assert(strings::digit(p[q.len() as int]));
    }
    assert(left.take(p.len() as int) =~= p);
    assert(right.take(p.len() as int) =~= q);
    strings::law_a_written_number_reads_back(process, process + other);
    strings::law_a_written_number_reads_back(other, process + other);
}

} // verus!
