//! The Markdown digest.
//!
//! It is pasted into a standup channel or a journal with no editing. Every value
//! out of the model goes through exactly one of two doors: [`code`], which wraps
//! it in a backtick fence long enough to contain it, or [`esc`], which
//! backslash-escapes the characters Markdown would otherwise read as syntax.
//! There are no tables: a nested bullet list carries the same structure and
//! cannot be broken by a `|` in a branch name.

use vstd::prelude::*;

use crate::by_agent::Grouping;
use crate::by_agent;
use crate::config::Config;
use crate::config;
use crate::model;
use crate::model::{CheckoutDigest, CheckoutReport, Commit, Comparison, Digest, Movement, Note,
    RepoComparison, RepoDigest, Severity, Text, OID_COLUMNS};
use crate::render;
use crate::render::{Section, REF_UNLIMITED};
use crate::strings;

verus! {

/// A long path is still noise in a channel.
pub const MD_PATH_COLUMNS: usize = 72;

/// Branch names truncate at the end: the head identifies them.
pub const MD_BRANCH_COLUMNS: usize = 72;

/// Long enough for a real subject, short enough that one commit cannot take
/// over the paste.
pub const MD_SUBJECT_COLUMNS: usize = 120;

// ---------------------------------------------------------------------------
// Escaping
// ---------------------------------------------------------------------------

/// The characters Markdown reads as syntax wherever they stand.
pub open spec fn special(c: char) -> bool {
    c == '\\' || c == '`' || c == '*' || c == '_' || c == '[' || c == ']' || c == '<' || c == '>'
        || c == '|' || c == '~' || c == '&'
}

/// A character as it goes out: control characters become spaces.
pub open spec fn plain(c: char) -> char {
    if strings::control(c) {
        ' '
    } else {
        c
    }
}

/// The text with a backslash before every special character.
pub open spec fn guarded(s: Text) -> Text
    decreases s.len(),
{
    if s.len() == 0 {
        Seq::empty()
    } else if special(s.last()) {
        guarded(s.drop_last()).push('\\').push(plain(s.last()))
    } else {
        guarded(s.drop_last()).push(plain(s.last()))
    }
}

/// How many of the character a text begins with.
pub open spec fn leading_run(s: Text, c: char) -> nat
    decreases s.len(),
{
    if s.len() == 0 || s[0] != c {
        0
    } else {
        1 + leading_run(s.drop_first(), c)
    }
}

/// How many digits a text begins with.
pub open spec fn leading_digits(s: Text) -> nat
    decreases s.len(),
{
    if s.len() == 0 || !strings::digit(s[0]) {
        0
    } else {
        1 + leading_digits(s.drop_first())
    }
}

/// Whether what stands at this place ends a marker: a space, or nothing.
pub open spec fn ends_marker(s: Text, at: nat) -> bool {
    at == s.len() || s[at as int] == ' '
}

/// Whether a text begins with the marker of a heading, which has six levels.
pub open spec fn heads(s: Text) -> bool {
    1 <= leading_run(s, '#') <= 6 && ends_marker(s, leading_run(s, '#'))
}

/// Whether a text begins with the marker of a heading or of a bulleted list
/// item.
pub open spec fn leads(s: Text) -> bool {
    heads(s) || (s.len() > 0 && (s[0] == '-' || s[0] == '+') && ends_marker(s, 1))
}

/// Whether a text begins with the marker of a numbered list item. A number has
/// at most nine digits there, and one of several is taken for a marker only
/// where the marker ends.
pub open spec fn numbers(s: Text) -> bool {
    let n = leading_digits(s);
    &&& 1 <= n <= 9
    &&& n < s.len() && (s[n as int] == '.' || s[n as int] == ')')
    &&& n == 1 || ends_marker(s, n + 1)
}

/// Prose with everything Markdown would read as syntax escaped.
#[verifier::opaque]
pub open spec fn escaped(s: Text) -> Text {
    let out = guarded(s);
    if leads(out) {
        seq!['\\'] + out
    } else if numbers(out) {
        let n = leading_digits(out) as int;
        out.take(n) + seq!['\\'] + out.skip(n)
    } else {
        out
    }
}

pub fn is_special(c: char) -> (answer: bool)
    ensures
        answer == special(c),
{
    c == '\\' || c == '`' || c == '*' || c == '_' || c == '[' || c == ']' || c == '<' || c == '>'
        || c == '|' || c == '~' || c == '&'
}

fn make_plain(c: char) -> (out: char)
    ensures
        out == plain(c),
{
    if strings::is_control(c) {
        ' '
    } else {
        c
    }
}

fn count_hashes(s: &Vec<char>) -> (n: usize)
    ensures
        n == leading_run(s@, '#'),
        n <= s@.len(),
{
    assert(s@.skip(0) =~= s@);
    for i in 0..s.len()
        invariant
            leading_run(s@, '#') == i + leading_run(s@.skip(i as int), '#'),
    {
        assert(s@.skip(i as int)[0] == s@[i as int]);
        assert(s@.skip(i as int).drop_first() =~= s@.skip(i + 1));
        if s[i] != '#' {
            return i;
        }
    }
    s.len()
}

fn count_digits(s: &Vec<char>) -> (n: usize)
    ensures
        n == leading_digits(s@),
        n <= s@.len(),
{
    assert(s@.skip(0) =~= s@);
    for i in 0..s.len()
        invariant
            leading_digits(s@) == i + leading_digits(s@.skip(i as int)),
    {
        assert(s@.skip(i as int)[0] == s@[i as int]);
        assert(s@.skip(i as int).drop_first() =~= s@.skip(i + 1));
        if !strings::is_digit(s[i]) {
            return i;
        }
    }
    s.len()
}

/// Prose — a subject, a problem, a note — with everything Markdown would read
/// as syntax backslash-escaped.
pub fn esc(s: &str) -> (out: String)
    ensures
        out@ == escaped(s@),
{
    let mut out: Vec<char> = Vec::new();
    for ch in it: s.chars()
        invariant
            it.seq() == s@,
            out@ == guarded(s@.take(it.index() as int)),
    {
        assert(s@.take(it.index() + 1).drop_last() =~= s@.take(it.index() as int));
        if is_special(ch) {
            out.push('\\');
        }
        out.push(make_plain(ch));
    }
    assert(s@.take(s@.len() as int) =~= s@);
    reveal(escaped);
    let n = out.len();
    let hashes = count_hashes(&out);
    let ends = hashes == n || out[hashes] == ' ';
    let heading = 1 <= hashes && hashes <= 6 && ends;
    let bullet = n > 0 && (out[0] == '-' || out[0] == '+') && (n == 1 || out[1] == ' ');
    if heading || bullet {
        let ghost before = out@;
        out.insert(0, '\\');
        assert(out@ =~= seq!['\\'] + before);
    } else {
        let digits = count_digits(&out);
        let closed = digits < n && (out[digits] == '.' || out[digits] == ')');
        let ended = closed && (digits + 1 == n || out[digits + 1] == ' ');
        if 1 <= digits && digits <= 9 && closed && (digits == 1 || ended) {
            let ghost before = out@;
            out.insert(digits, '\\');
            assert(out@ =~= before.take(digits as int) + seq!['\\'] + before.skip(digits as int));
        }
    }
    strings::string_of(out.as_slice())
}

/// The text with control characters made spaces.
pub open spec fn flattened(s: Text) -> Text {
    Seq::new(s.len(), |i: int| plain(s[i]))
}

/// The run of backticks the text ends with.
pub open spec fn last_run(s: Text) -> nat
    decreases s.len(),
{
    if s.len() == 0 || s.last() != '`' {
        0
    } else {
        last_run(s.drop_last()) + 1
    }
}

/// The longest run of backticks anywhere in the text.
pub open spec fn longest_run(s: Text) -> nat
    decreases s.len(),
{
    if s.len() == 0 {
        0
    } else {
        let before = longest_run(s.drop_last());
        if last_run(s) > before {
            last_run(s)
        } else {
            before
        }
    }
}

pub open spec fn edge(c: char) -> bool {
    c == '`' || c == ' '
}

/// An identifier as an inline code span. The fence is one backtick longer than
/// the longest run inside, and content that begins or ends with a backtick or a
/// space is padded.
pub open spec fn code_text(s: Text) -> Text {
    let flat = flattened(s);
    if strings::trimmed(flat).len() == 0 {
        "`(empty)`"@
    } else {
        let fence = strings::repeated('`', longest_run(flat) + 1);
        let pad = if edge(flat[0]) || edge(flat.last()) {
            " "@
        } else {
            ""@
        };
        fence + pad + flat + pad + fence
    }
}

proof fn lemma_run_bound(s: Text)
    ensures
        last_run(s) <= s.len(),
        longest_run(s) <= s.len(),
    decreases s.len(),
{
    if s.len() > 0 {
        lemma_run_bound(s.drop_last());
    }
}

proof fn lemma_trimmed_nothing()
    ensures
        strings::trimmed(Seq::empty()) == Seq::<char>::empty(),
{
}

/// An identifier — branch, path, ref, object id — as an inline code span.
pub fn code(s: &str) -> (out: String)
    ensures
        out@ == code_text(s@),
{
    let mut flat = String::new();
    let mut longest: usize = 0;
    let mut run: usize = 0;
    let chars = strings::chars_of(s);
    let ghost all = flattened(s@);
    assert(all.take(0) =~= Seq::empty());
    for i in 0..chars.len()
        invariant
            chars@ == s@,
            all == flattened(s@),
            flat@ == all.take(i as int),
            run == last_run(all.take(i as int)),
            longest == longest_run(all.take(i as int)),
            run <= i,
            longest <= i,
    {
        assert(all.take(i + 1).drop_last() =~= all.take(i as int));
        let c = make_plain(chars[i]);
        assert(all[i as int] == c);
        flat.push(c);
        assert(flat@ =~= all.take(i + 1));
        if c == '`' {
            run = run + 1;
            if run > longest {
                longest = run;
            }
        } else {
            run = 0;
        }
    }
    assert(all.take(all.len() as int) =~= all);
    if strings::is_empty(strings::trim(flat.as_str()).as_str()) {
        return "`(empty)`".to_string();
    }
    proof {
        if all.len() == 0 {
            assert(all =~= Seq::empty());
            lemma_trimmed_nothing();
        }
        lemma_run_bound(all);
    }
    let n = chars.len();
    let first = make_plain(chars[0]);
    let last = make_plain(chars[n - 1]);
    let pad = if first == '`' || last == '`' || first == ' ' || last == ' ' {
        " "
    } else {
        ""
    };
    let ticks = strings::repeat('`', longest);
    let mut fence = ticks;
    fence.push('`');
    assert(fence@ =~= strings::repeated('`', longest_run(all) + 1));
    strings::cat5(fence.as_str(), pad, flat.as_str(), pad, fence.as_str())
}

/// The punctuation that a backslash makes literal here.
pub open spec fn escapable(c: char) -> bool {
    special(c) || c == '#' || c == '-' || c == '+' || c == '.' || c == ')'
}

/// Whether a text reads as itself: every special character in it, and every
/// backslash, belongs to an escape.
pub open spec fn literal(s: Text) -> bool
    decreases s.len(),
{
    if s.len() == 0 {
        true
    } else if s[0] == '\\' {
        s.len() >= 2 && escapable(s[1]) && literal(s.skip(2))
    } else {
        !special(s[0]) && literal(s.skip(1))
    }
}

proof fn lemma_literal_together(a: Text, b: Text)
    requires
        literal(a),
        literal(b),
    ensures
        literal(a + b),
    decreases a.len(),
{
    if a.len() == 0 {
        assert(a + b =~= b);
    } else if a[0] == '\\' {
        lemma_literal_together(a.skip(2), b);
        assert((a + b).skip(2) =~= a.skip(2) + b);
    } else {
        lemma_literal_together(a.skip(1), b);
        assert((a + b).skip(1) =~= a.skip(1) + b);
    }
}

proof fn lemma_guarded_is_literal(s: Text)
    ensures
        literal(guarded(s)),
        forall|i: int| 0 <= i < guarded(s).len() ==> !strings::control(#[trigger] guarded(s)[i]),
    decreases s.len(),
{
    if s.len() > 0 {
        lemma_guarded_is_literal(s.drop_last());
        let before = guarded(s.drop_last());
        let last = plain(s.last());
        if special(s.last()) {
            let escape = seq!['\\', last];
            assert(escape.skip(2) =~= Seq::empty());
            assert(literal(escape.skip(2)));
            lemma_literal_together(before, escape);
            assert(guarded(s) =~= before + escape);
        } else {
            let one = seq![last];
            assert(one.skip(1) =~= Seq::empty());
            assert(literal(one.skip(1)));
            lemma_literal_together(before, one);
            assert(guarded(s) =~= before + one);
        }
    }
}

proof fn lemma_digits_lead(s: Text)
    ensures
        leading_digits(s) <= s.len(),
        forall|i: int| 0 <= i < leading_digits(s) ==> strings::digit(#[trigger] s[i]),
    decreases s.len(),
{
    if s.len() > 0 && strings::digit(s[0]) {
        let rest = s.drop_first();
        lemma_digits_lead(rest);
        assert forall|i: int| 0 <= i < leading_digits(s) implies strings::digit(
            #[trigger] s[i],
        ) by {
            if i > 0 {
                assert(rest[i - 1] == s[i]);
            }
        }
    }
}

/// So many digits and then none are that many digits to begin with.
proof fn lemma_digits_counted(s: Text, n: nat)
    requires
        n < s.len(),
        forall|i: int| 0 <= i < n ==> strings::digit(#[trigger] s[i]),
        !strings::digit(s[n as int]),
    ensures
        leading_digits(s) == n,
    decreases n,
{
    if n > 0 {
        let rest = s.drop_first();
        assert forall|i: int| 0 <= i < n - 1 implies strings::digit(#[trigger] rest[i]) by {
            assert(rest[i] == s[i + 1]);
        }
        assert(strings::digit(s[0]));
        lemma_digits_counted(rest, (n - 1) as nat);
    }
}

proof fn lemma_digits_are_literal(s: Text)
    requires
        forall|i: int| 0 <= i < s.len() ==> strings::digit(#[trigger] s[i]),
    ensures
        literal(s),
    decreases s.len(),
{
    if s.len() > 0 {
        let rest = s.skip(1);
        assert forall|i: int| 0 <= i < rest.len() implies strings::digit(#[trigger] rest[i]) by {
            assert(rest[i] == s[i + 1]);
        }
        lemma_digits_are_literal(rest);
        assert(strings::digit(s[0]));
    }
}

proof fn lemma_literal_after_digits(s: Text, n: nat)
    requires
        literal(s),
        n <= leading_digits(s),
    ensures
        literal(s.skip(n as int)),
    decreases n,
{
    lemma_digits_lead(s);
    if n == 0 {
        assert(s.skip(0) =~= s);
    } else {
        assert(s.skip(1) =~= s.drop_first());
        lemma_literal_after_digits(s.skip(1), (n - 1) as nat);
        assert(s.skip(1).skip(n - 1) =~= s.skip(n as int));
    }
}

/// Escaped prose stays prose, on one line: nothing in it is read as syntax, and
/// what it begins with is the marker of neither a heading of any level nor a
/// list item.
pub proof fn law_escaped_text_stays_text(s: Text)
    ensures
        literal(escaped(s)),
        !leads(escaped(s)),
        !numbers(escaped(s)),
        forall|i: int| 0 <= i < escaped(s).len() ==> !strings::control(#[trigger] escaped(s)[i]),
{
    reveal(escaped);
    lemma_guarded_is_literal(s);
    let out = guarded(s);
    if leads(out) {
        let escape = seq!['\\', out[0]];
        assert(escape.skip(2) =~= Seq::empty());
        assert(literal(escape.skip(2)));
        assert(out.len() > 0 && !special(out[0]));
        lemma_literal_together(escape, out.skip(1));
        assert(escaped(s) =~= escape + out.skip(1));
        assert(leading_run(escaped(s), '#') == 0);
    } else if numbers(out) {
        let n = leading_digits(out) as int;
        lemma_digits_lead(out);
        let digits = out.take(n);
        let rest = out.skip(n);
        lemma_digits_are_literal(digits);
        lemma_literal_after_digits(out, n as nat);
        assert(rest[0] == out[n] && rest[0] != '\\');
        let escape = seq!['\\', rest[0]];
        assert(escape.skip(2) =~= Seq::empty());
        assert(literal(escape.skip(2)));
        lemma_literal_together(escape, rest.skip(1));
        lemma_literal_together(digits, escape + rest.skip(1));
        assert(escaped(s) =~= digits + (escape + rest.skip(1)));
        assert(escaped(s)[0] == out[0] && strings::digit(out[0]));
        assert forall|i: int| 0 <= i < n implies strings::digit(#[trigger] escaped(s)[i]) by {
            assert(escaped(s)[i] == out[i]);
        }
        lemma_digits_counted(escaped(s), n as nat);
        assert(leading_run(escaped(s), '#') == 0);
        assert forall|i: int| 0 <= i < escaped(s).len() implies !strings::control(
            #[trigger] escaped(s)[i],
        ) by {
            assert(escaped(s)[i] == if i < n {
                out[i]
            } else if i == n {
                '\\'
            } else {
                out[i - 1]
            });
        }
    }
}

proof fn lemma_run_within(s: Text, from: int, to: int)
    requires
        0 <= from <= to <= s.len(),
        forall|i: int| from <= i < to ==> s[i] == '`',
    ensures
        to == s.len() ==> last_run(s) >= to - from,
        longest_run(s) >= to - from,
    decreases s.len(),
{
    if s.len() > 0 {
        let rest = s.drop_last();
        if to < s.len() {
            lemma_run_within(rest, from, to);
        } else if from < to {
            lemma_run_within(rest, from, to - 1);
        }
    }
}

/// A code span ends where it is meant to end: what stands between its two
/// fences neither holds a fence nor touches one with a backtick of its own.
pub proof fn law_a_code_span_is_never_closed_early(s: Text)
    ensures
        exists|fence: Text, inner: Text|
            {
                &&& code_text(s) == #[trigger] (fence + inner + fence)
                &&& fence.len() > 0
                &&& forall|i: int| 0 <= i < fence.len() ==> fence[i] == '`'
                &&& !strings::holds(inner, fence)
                &&& inner.len() > 0 && inner[0] != '`' && inner.last() != '`'
            },
{
    let flat = flattened(s);
    if strings::trimmed(flat).len() == 0 {
        let fence = "`"@;
        let inner = "(empty)"@;
        reveal_strlit("`");
        reveal_strlit("(empty)");
        reveal_strlit("`(empty)`");
        assert(code_text(s) =~= fence + inner + fence);
        lemma_no_runs(inner);
        lemma_not_held(inner, fence);
    } else {
        if flat.len() == 0 {
            assert(flat =~= Seq::empty());
            lemma_trimmed_nothing();
        }
        reveal_strlit(" ");
        reveal_strlit("");
        let fence = strings::repeated('`', longest_run(flat) + 1);
        let pad = if edge(flat[0]) || edge(flat.last()) {
            " "@
        } else {
            ""@
        };
        let inner = pad + flat + pad;
        assert(code_text(s) =~= fence + inner + fence);
        lemma_padded_runs(flat, pad);
        lemma_not_held(inner, fence);
    }
}

proof fn lemma_no_runs(s: Text)
    requires
        forall|i: int| 0 <= i < s.len() ==> s[i] != '`',
    ensures
        longest_run(s) == 0,
    decreases s.len(),
{
    if s.len() > 0 {
        lemma_no_runs(s.drop_last());
    }
}

proof fn lemma_padded_runs(flat: Text, pad: Text)
    requires
        pad.len() <= 1,
        forall|i: int| 0 <= i < pad.len() ==> pad[i] != '`',
    ensures
        longest_run(pad + flat + pad) == longest_run(flat),
{
    lemma_run_after(pad, flat);
    assert((pad + flat + pad).drop_last() =~= if pad.len() == 0 {
        (pad + flat).drop_last()
    } else {
        pad + flat
    });
    if pad.len() == 0 {
        assert(pad + flat + pad =~= pad + flat);
    }
}

proof fn lemma_run_after(pad: Text, flat: Text)
    requires
        pad.len() <= 1,
        forall|i: int| 0 <= i < pad.len() ==> pad[i] != '`',
    ensures
        longest_run(pad + flat) == longest_run(flat),
        last_run(pad + flat) == last_run(flat),
    decreases flat.len(),
{
    if flat.len() == 0 {
        assert(pad + flat =~= pad);
        if pad.len() == 1 {
            assert(pad.drop_last() =~= Seq::empty());
            assert(longest_run(pad.drop_last()) == 0);
        }
    } else {
        lemma_run_after(pad, flat.drop_last());
        assert((pad + flat).drop_last() =~= pad + flat.drop_last());
    }
}

proof fn lemma_not_held(inner: Text, fence: Text)
    requires
        fence.len() > longest_run(inner),
        forall|i: int| 0 <= i < fence.len() ==> fence[i] == '`',
    ensures
        !strings::holds(inner, fence),
{
    if strings::holds(inner, fence) {
        let at = choose|at: int|
            0 <= at <= inner.len() && strings::begins(#[trigger] inner.skip(at), fence);
        assert forall|i: int| at <= i < at + fence.len() implies inner[i] == '`' by {
            assert(inner.skip(at).take(fence.len() as int)[i - at] == fence[i - at]);
        }
        lemma_run_within(inner, at, at + fence.len());
    }
}

// ---------------------------------------------------------------------------
// Blocks
// ---------------------------------------------------------------------------

pub open spec fn paragraph_text(s: Text) -> Text {
    s + "\n\n"@
}

fn paragraph(s: &str) -> (out: String)
    ensures
        out@ == paragraph_text(s@),
{
    strings::cat2(s, "\n\n")
}

/// One bullet, so many columns in.
pub open spec fn item_text(indent: nat, s: Text) -> Text {
    strings::repeated(' ', indent) + "- "@ + s + "\n"@
}

fn item(indent: usize, s: &str) -> (out: String)
    ensures
        out@ == item_text(indent as nat, s@),
{
    strings::cat4(strings::repeat(' ', indent).as_str(), "- ", s, "\n")
}

pub open spec fn marked_text(loud: bool, message: Text) -> Text {
    if loud {
        "**problem:** "@ + escaped(message)
    } else {
        escaped(message)
    }
}

fn marked(loud: bool, message: &str) -> (out: String)
    ensures
        out@ == marked_text(loud, message@),
{
    if loud {
        strings::cat2("**problem:** ", esc(message).as_str())
    } else {
        esc(message)
    }
}

pub open spec fn header_text(digest: model::DigestView) -> Text {
    let window = digest.window;
    let start = "**standup** \u{2014} since "@ + escaped(window.since.full());
    let until = match window.until {
        Some(until) => start + " until "@ + escaped(until.full()),
        None => start,
    };
    let opening = paragraph_text(
        until + " (generated "@ + escaped(render::generated_text(digest)) + ")"@,
    );
    match render::window_text(window) {
        Some(note) => opening + paragraph_text(escaped(note)),
        None => opening,
    }
}

fn header(digest: &Digest) -> (out: String)
    ensures
        out@ == header_text(digest@),
{
    let window = &digest.window;
    let mut head = strings::cat2(
        "**standup** \u{2014} since ",
        esc(window.since.full().as_str()).as_str(),
    );
    if let Some(until) = &window.until {
        head = strings::cat3(head.as_str(), " until ", esc(until.full().as_str()).as_str());
    }
    let head = strings::cat4(
        head.as_str(),
        " (generated ",
        esc(render::generated_display(digest).as_str()).as_str(),
        ")",
    );
    let mut out = paragraph(head.as_str());
    if let Some(note) = render::window_note(window) {
        out.append(paragraph(esc(note.as_str()).as_str()).as_str());
    }
    out
}

// ---------------------------------------------------------------------------
// One repository
// ---------------------------------------------------------------------------

pub open spec fn commit_text(commit: model::CommitView, with_date: bool) -> Text {
    item_text(
        4,
        code_text(render::instant_text(commit.committed, with_date)) + " "@ + code_text(
            strings::leading(commit.oid, OID_COLUMNS as nat),
        ) + " \u{2014} "@ + escaped(
            render::cut_right(strings::trimmed(commit.subject), MD_SUBJECT_COLUMNS as nat),
        ),
    )
}

pub open spec fn commits_text(commits: Seq<model::CommitView>, with_date: bool) -> Text
    decreases commits.len(),
{
    if commits.len() == 0 {
        Seq::empty()
    } else {
        commits_text(commits.drop_last(), with_date) + commit_text(commits.last(), with_date)
    }
}

pub open spec fn remainder_text(shown: nat, held_back: nat) -> Text {
    if held_back == 0 {
        Seq::empty()
    } else {
        let count = if shown == 0 {
            render::counted(held_back, "commit"@, "commits"@)
        } else {
            render::counted(held_back, "more commit"@, "more commits"@)
        };
        item_text(4, "\u{2026} "@ + count + " not listed"@)
    }
}

pub open spec fn commit_list_text(
    commits: Seq<model::CommitView>,
    max: nat,
    with_date: bool,
) -> Text {
    let shown = render::shown_commits(commits, max);
    commits_text(shown, with_date) + remainder_text(shown.len(), render::held_back(commits, max))
}

fn commit_item(commit: &Commit, with_date: bool) -> (out: String)
    ensures
        out@ == commit_text(commit@, with_date),
{
    let when = code(render::commit_time(&commit.committed, with_date).as_str());
    let oid = code(commit.short_oid().as_str());
    let subject = render::truncate_right(
        strings::trim(commit.subject.as_str()).as_str(),
        MD_SUBJECT_COLUMNS,
    );
    item(
        4,
        strings::cat5(
            when.as_str(),
            " ",
            oid.as_str(),
            " \u{2014} ",
            esc(subject.as_str()).as_str(),
        ).as_str(),
    )
}

fn commit_items(report: &CheckoutReport, max: usize, with_date: bool) -> (out: String)
    ensures
        out@ == commit_list_text(report@.commits, max as nat, with_date),
{
    broadcast use strings::group_lists;

    let (shown, held_back) = render::listed_commits(report, max);
    let ghost all = strings::views(shown@);
    let mut out = String::new();
    for i in 0..shown.len()
        invariant
            all == strings::views(shown@),
            out@ == commits_text(all.take(i as int), with_date),
    {
        broadcast use strings::group_lists;

        assert(all.take(i as int).push(all[i as int]) == all.take(i + 1));
        assert(all[i as int] == shown@[i as int]@);
        out.append(commit_item(shown[i], with_date).as_str());
    }
    assert(all.take(all.len() as int) =~= all);
    let rest = if held_back > 0 {
        let counted = if shown.len() == 0 {
            render::quantity(held_back, "commit", "commits")
        } else {
            render::quantity(held_back, "more commit", "more commits")
        };
        item(4, strings::cat3("\u{2026} ", counted.as_str(), " not listed").as_str())
    } else {
        String::new()
    };
    out.append(rest.as_str());
    out
}

/// Each text escaped, in order.
pub open spec fn all_escaped(list: Seq<Text>) -> Seq<Text> {
    Seq::new(list.len(), |i: int| escaped(list[i]))
}

pub fn esc_all(list: &Vec<String>) -> (out: Vec<String>)
    ensures
        strings::views(out@) == all_escaped(strings::views(list@)),
{
    broadcast use strings::group_lists;

    let ghost all = all_escaped(strings::views(list@));
    let mut out: Vec<String> = Vec::new();
    for i in 0..list.len()
        invariant
            all == all_escaped(strings::views(list@)),
            strings::views(out@) == all.take(i as int),
    {
        broadcast use strings::group_lists;

        let shown = esc(list[i].as_str());
        assert(strings::views(list@)[i as int] == list@[i as int]@);
        assert(all[i as int] == shown@);
        out.push(shown);
    }
    assert(all.take(all.len() as int) =~= all);
    out
}

/// The line a checkout begins with.
pub open spec fn headline_text(report: model::ReportView, home: Option<Text>) -> Text {
    let start = "  - "@ + code_text(
        render::cut_right(render::head_text(report.head), MD_BRANCH_COLUMNS as nat),
    ) + " \u{2014} "@ + code_text(
        render::short_path(render::from_home(report.path, home), MD_PATH_COLUMNS as nat),
    );
    let quiet = report.activity() == model::Activity::Quiet;
    let remark = render::head_remark(report.head, REF_UNLIMITED as nat);
    let told = if !quiet {
        start + " \u{2014} "@ + strings::joined(
            all_escaped(render::clauses(report, REF_UNLIMITED as nat)),
            " \u{2014} "@,
        )
    } else if remark is None {
        start + " \u{2014} "@ + "quiet"@
    } else {
        start
    };
    told + "\n"@
}

fn headline(report: &CheckoutReport, home: &Option<String>, has_remark: bool) -> (out: String)
    requires
        has_remark == (render::head_remark(report@.head, REF_UNLIMITED as nat) is Some),
    ensures
        out@ == headline_text(report@, strings::view_of(*home)),
{
    let branch = render::truncate_right(
        render::head_label(&report.head).as_str(),
        MD_BRANCH_COLUMNS,
    );
    let path = render::shorten_path(report.path.as_str(), MD_PATH_COLUMNS, home);
    let start = strings::cat4(
        "  - ",
        code(branch.as_str()).as_str(),
        " \u{2014} ",
        code(path.as_str()).as_str(),
    );
    let mut told = match render::quiet_word(report.activity()) {
        Some(word) => if has_remark {
            start
        } else {
            strings::cat3(start.as_str(), " \u{2014} ", word)
        },
        None => {
            let clauses = esc_all(&render::checkout_clauses(report, REF_UNLIMITED));
            strings::cat3(
                start.as_str(),
                " \u{2014} ",
                strings::join(&clauses, " \u{2014} ").as_str(),
            )
        },
    };
    told.append("\n");
    told
}

pub open spec fn remark_text(remark: Option<(Text, bool)>) -> Text {
    match remark {
        Some(remark) => item_text(4, marked_text(remark.1, remark.0)),
        None => Seq::empty(),
    }
}

pub open spec fn problems_text(problems: Seq<Text>) -> Text
    decreases problems.len(),
{
    if problems.len() == 0 {
        Seq::empty()
    } else {
        problems_text(problems.drop_last()) + item_text(4, marked_text(true, problems.last()))
    }
}

pub open spec fn credit_text(credit: Option<(Text, Text)>) -> Text {
    match credit {
        Some(credit) => item_text(4, credit.0 + ": "@ + escaped(credit.1)),
        None => Seq::empty(),
    }
}

pub open spec fn sentence_text(sentence: Option<Text>) -> Text {
    match sentence {
        Some(sentence) => item_text(4, escaped(sentence)),
        None => Seq::empty(),
    }
}

#[verifier::opaque]
pub open spec fn checkout_text(
    checkout: model::CheckoutView,
    config: config::ConfigView,
    with_date: bool,
    list: bool,
) -> Text {
    let report = checkout.report;
    headline_text(report, config.home) + remark_text(
        render::head_remark(report.head, REF_UNLIMITED as nat),
    ) + problems_text(report.problems) + credit_text(render::credited(checkout)) + sentence_text(
        render::unpushed_text(report.unpushed),
    ) + sentence_text(render::dirty_text(report.dirty)) + if list {
        commit_list_text(report.commits, config.max_commits as nat, with_date)
    } else {
        Seq::empty()
    }
}

fn problem_items(problems: &Vec<String>) -> (out: String)
    ensures
        out@ == problems_text(strings::views(problems@)),
{
    broadcast use strings::group_lists;

    let ghost all = strings::views(problems@);
    let mut out = String::new();
    for i in 0..problems.len()
        invariant
            all == strings::views(problems@),
            out@ == problems_text(all.take(i as int)),
    {
        broadcast use strings::group_lists;

        assert(all.take(i as int).push(all[i as int]) == all.take(i + 1));
        assert(all[i as int] == problems@[i as int]@);
        out.append(item(4, marked(true, problems[i].as_str()).as_str()).as_str());
    }
    out
}

fn sentence_item(sentence: &Option<String>) -> (out: String)
    ensures
        out@ == sentence_text(strings::view_of(*sentence)),
{
    match sentence {
        Some(sentence) => item(4, esc(sentence.as_str()).as_str()),
        None => String::new(),
    }
}

fn checkout_items(checkout: &CheckoutDigest, config: &Config, with_date: bool, list: bool) -> (out:
    String)
    ensures
        out@ == checkout_text(checkout@, config@, with_date, list),
{
    reveal(checkout_text);
    let report = &checkout.report;
    let remark = render::head_note(&report.head, REF_UNLIMITED);
    let mut out = headline(report, &config.home, remark.is_some());
    let remarked = match &remark {
        Some((note, loud)) => item(4, marked(*loud, note.as_str()).as_str()),
        None => String::new(),
    };
    out.append(remarked.as_str());
    out.append(problem_items(&report.problems).as_str());
    let credit = match render::attribution(checkout) {
        Some((label, who)) => item(
            4,
            strings::cat3(label, ": ", esc(who.as_str()).as_str()).as_str(),
        ),
        None => String::new(),
    };
    out.append(credit.as_str());
    out.append(sentence_item(&render::unpushed_sentence(&report.unpushed)).as_str());
    out.append(sentence_item(&render::dirty_sentence(&report.dirty)).as_str());
    let listed = if list {
        commit_items(report, config.max_commits, with_date)
    } else {
        String::new()
    };
    out.append(listed.as_str());
    out
}

pub open spec fn checkouts_text(
    checkouts: Seq<model::CheckoutView>,
    config: config::ConfigView,
    with_date: bool,
    list: bool,
) -> Text
    decreases checkouts.len(),
{
    if checkouts.len() == 0 {
        Seq::empty()
    } else {
        checkouts_text(checkouts.drop_last(), config, with_date, list) + checkout_text(
            checkouts.last(),
            config,
            with_date,
            list,
        )
    }
}

/// The bullet a repository begins with. How many days were active is only worth
/// saying where the commits are not listed.
pub open spec fn repo_head_text(repo: model::RepoView, list: bool) -> Text {
    let start = "- **"@ + escaped(repo.name) + "** \u{2014} "@ + render::stats_text(
        repo.commits,
        repo.churn,
    );
    if !list && repo.active_days > 0 {
        start + " \u{2014} over "@ + render::counted(
            repo.active_days as nat,
            "active day"@,
            "active days"@,
        ) + "\n"@
    } else {
        start + "\n"@
    }
}

#[verifier::opaque]
pub open spec fn repo_text(
    repo: model::RepoView,
    config: config::ConfigView,
    with_date: bool,
    list: bool,
) -> Text {
    repo_head_text(repo, list) + checkouts_text(
        render::checkouts_sorted(repo.checkouts),
        config,
        with_date,
        list,
    )
}

fn repo_head(repo: &RepoDigest, list: bool) -> (out: String)
    ensures
        out@ == repo_head_text(repo@, list),
{
    let start = strings::cat4(
        "- **",
        esc(repo.name.as_str()).as_str(),
        "** \u{2014} ",
        render::stats(repo.commits, repo.churn).as_str(),
    );
    if !list && repo.active_days > 0 {
        strings::cat4(
            start.as_str(),
            " \u{2014} over ",
            render::quantity(repo.active_days, "active day", "active days").as_str(),
            "\n",
        )
    } else {
        strings::cat2(start.as_str(), "\n")
    }
}

fn checkout_lists(
    checkouts: &Vec<&CheckoutDigest>,
    config: &Config,
    with_date: bool,
    list: bool,
) -> (out: String)
    ensures
        out@ == checkouts_text(strings::views(checkouts@), config@, with_date, list),
{
    broadcast use strings::group_lists;

    let ghost all = strings::views(checkouts@);
    let mut out = String::new();
    for i in 0..checkouts.len()
        invariant
            all == strings::views(checkouts@),
            out@ == checkouts_text(all.take(i as int), config@, with_date, list),
    {
        broadcast use strings::group_lists;

        assert(all.take(i as int).push(all[i as int]) == all.take(i + 1));
        assert(all[i as int] == checkouts@[i as int]@);
        out.append(checkout_items(checkouts[i], config, with_date, list).as_str());
    }
    assert(all.take(all.len() as int) =~= all);
    out
}

fn repo_bullets(repo: &RepoDigest, config: &Config, with_date: bool, list: bool) -> (out: String)
    ensures
        out@ == repo_text(repo@, config@, with_date, list),
{
    reveal(repo_text);
    let mut out = repo_head(repo, list);
    let checkouts = render::sorted_checkouts(repo);
    out.append(checkout_lists(&checkouts, config, with_date, list).as_str());
    out
}

pub open spec fn repos_text(
    repos: Seq<model::RepoView>,
    config: config::ConfigView,
    with_date: bool,
    list: bool,
) -> Text
    decreases repos.len(),
{
    if repos.len() == 0 {
        Seq::empty()
    } else {
        repos_text(repos.drop_last(), config, with_date, list) + repo_text(
            repos.last(),
            config,
            with_date,
            list,
        )
    }
}

fn repo_lists(
    repos: &Vec<&RepoDigest>,
    config: &Config,
    with_date: bool,
    list: bool,
) -> (out: String)
    ensures
        out@ == repos_text(strings::views(repos@), config@, with_date, list),
{
    broadcast use strings::group_lists;

    let ghost all = strings::views(repos@);
    let mut out = String::new();
    for i in 0..repos.len()
        invariant
            all == strings::views(repos@),
            out@ == repos_text(all.take(i as int), config@, with_date, list),
    {
        broadcast use strings::group_lists;

        assert(all.take(i as int).push(all[i as int]) == all.take(i + 1));
        assert(all[i as int] == repos@[i as int]@);
        out.append(repo_bullets(repos[i], config, with_date, list).as_str());
    }
    assert(all.take(all.len() as int) =~= all);
    out
}

// ---------------------------------------------------------------------------
// The digest
// ---------------------------------------------------------------------------

/// The escaped names of repositories, in order.
pub open spec fn names_of(repos: Seq<model::RepoView>) -> Seq<Text> {
    all_escaped(render::text::names_of(repos))
}

/// A list of quiet repository names, and nothing where there are none.
pub open spec fn quiet_text(repos: Seq<model::RepoView>) -> Text {
    if repos.len() == 0 {
        Seq::empty()
    } else {
        paragraph_text("Quiet: "@ + strings::joined(names_of(repos), ", "@) + "."@)
    }
}

fn quiet_paragraph(repos: &Vec<&RepoDigest>) -> (out: String)
    ensures
        out@ == quiet_text(strings::views(repos@)),
{
    assert(strings::views(repos@).len() == repos@.len());
    if repos.len() == 0 {
        return String::new();
    }
    let names = esc_all(&render::text::repo_names(repos));
    paragraph(strings::cat3("Quiet: ", strings::join(&names, ", ").as_str(), ".").as_str())
}

pub open spec fn heading_text(section: render::SectionView) -> Text {
    match section.heading {
        None => Seq::empty(),
        Some(heading) => "\n**"@ + escaped(heading) + "**"@ + (match section.stats {
            Some(stats) => " \u{2014} "@ + escaped(stats),
            None => ""@,
        }) + "\n\n"@,
    }
}

#[verifier::opaque]
pub open spec fn section_text(
    section: render::SectionView,
    config: config::ConfigView,
    with_date: bool,
    list: bool,
) -> Text {
    heading_text(section) + repos_text(
        model::busy_among(section.repos),
        config,
        with_date,
        list,
    ) + if section.heading is Some {
        quiet_text(model::quiet_among(section.repos))
    } else {
        Seq::empty()
    }
}

pub open spec fn all_sections_text(
    sections: Seq<render::SectionView>,
    config: config::ConfigView,
    with_date: bool,
    list: bool,
) -> Text
    decreases sections.len(),
{
    if sections.len() == 0 {
        Seq::empty()
    } else {
        all_sections_text(sections.drop_last(), config, with_date, list) + section_text(
            sections.last(),
            config,
            with_date,
            list,
        )
    }
}

fn section_block(section: &Section, config: &Config, with_date: bool, list: bool) -> (out: String)
    ensures
        out@ == section_text(section@, config@, with_date, list),
{
    reveal(section_text);
    let mut out = match &section.heading {
        None => String::new(),
        Some(heading) => {
            let stats = match &section.stats {
                Some(stats) => strings::cat2(" \u{2014} ", esc(stats.as_str()).as_str()),
                None => "".to_string(),
            };
            strings::cat5(
                "\n**",
                esc(heading.as_str()).as_str(),
                "**",
                stats.as_str(),
                "\n\n",
            )
        },
    };
    let busy = model::busy_of(&section.repos);
    out.append(repo_lists(&busy, config, with_date, list).as_str());
    let quiet = if section.heading.is_some() {
        quiet_paragraph(&model::quiet_of(&section.repos))
    } else {
        String::new()
    };
    out.append(quiet.as_str());
    out
}

fn section_blocks(
    sections: &Vec<Section>,
    config: &Config,
    with_date: bool,
    list: bool,
) -> (out: String)
    ensures
        out@ == all_sections_text(strings::views(sections@), config@, with_date, list),
{
    broadcast use strings::group_lists;

    let ghost all = strings::views(sections@);
    let mut out = String::new();
    for i in 0..sections.len()
        invariant
            all == strings::views(sections@),
            out@ == all_sections_text(all.take(i as int), config@, with_date, list),
    {
        broadcast use strings::group_lists;

        assert(all.take(i as int).push(all[i as int]) == all.take(i + 1));
        assert(all[i as int] == sections@[i as int]@);
        out.append(section_block(&sections[i], config, with_date, list).as_str());
    }
    assert(all.take(all.len() as int) =~= all);
    out
}

pub open spec fn caveat_text(grouping: Option<by_agent::GroupingView>) -> Text {
    match grouping {
        Some(grouping) => paragraph_text(escaped(grouping.warning())),
        None => Seq::empty(),
    }
}

/// What came out of the window.
pub open spec fn body_text(
    digest: model::DigestView,
    config: config::ConfigView,
    sections: Seq<render::SectionView>,
) -> Text {
    let total = render::section_total(sections);
    if total == 0 {
        paragraph_text("No repositories were found in this session."@)
    } else if !render::any_busy(sections) {
        paragraph_text(
            "Nothing landed in this window, across "@ + render::counted(
                total as nat,
                "repository"@,
                "repositories"@,
            ) + "."@,
        )
    } else {
        paragraph_text(
            render::stats_text(
                model::commit_total(digest.repos),
                model::churn_total(digest.repos),
            ) + " across "@ + render::counted(
                digest.repos.len(),
                "repository"@,
                "repositories"@,
            ) + "."@,
        ) + all_sections_text(
            sections,
            config,
            render::needs_dates(digest),
            !(digest.window.source is Rollup),
        ) + "\n"@
    }
}

/// The quiet repositories, where no section has named its own.
pub open spec fn closing_text(sections: Seq<render::SectionView>) -> Text {
    if render::no_headings(sections) {
        quiet_text(render::all_quiet(sections))
    } else {
        Seq::empty()
    }
}

pub open spec fn note_list_text(notes: Seq<Note<Text>>) -> Text
    decreases notes.len(),
{
    if notes.len() == 0 {
        Seq::empty()
    } else {
        note_list_text(notes.drop_last()) + item_text(
            0,
            marked_text(notes.last().severity == Severity::Warning, notes.last().message),
        )
    }
}

pub open spec fn notes_text(notes: Seq<Note<Text>>) -> Text {
    if notes.len() == 0 {
        Seq::empty()
    } else {
        paragraph_text("Notes:"@) + note_list_text(notes) + "\n"@
    }
}

/// Everything the digest says, before its end is tidied.
pub open spec fn draft_text(
    digest: model::DigestView,
    config: config::ConfigView,
    grouping: Option<by_agent::GroupingView>,
) -> Text {
    let sections = render::sections_of(digest, grouping);
    header_text(digest) + caveat_text(grouping) + body_text(digest, config, sections)
        + closing_text(sections) + notes_text(digest.notes)
}

/// The whole Markdown digest: exactly one line break at the end, whatever the
/// last block was.
pub open spec fn digest_text(
    digest: model::DigestView,
    config: config::ConfigView,
    grouping: Option<by_agent::GroupingView>,
) -> Text {
    strings::without_trailing(draft_text(digest, config, grouping), '\n').push('\n')
}

fn body(digest: &Digest, config: &Config, sections: &Vec<Section>) -> (out: String)
    ensures
        out@ == body_text(digest@, config@, strings::views(sections@)),
{
    let total = render::total_in(sections);
    if total == 0 {
        return paragraph("No repositories were found in this session.");
    }
    if !render::busy_anywhere(sections) {
        return paragraph(
            strings::cat3(
                "Nothing landed in this window, across ",
                render::quantity(total, "repository", "repositories").as_str(),
                ".",
            ).as_str(),
        );
    }
    assert(digest@.repos.len() == digest.repos@.len());
    let stats = render::stats(digest.total_commits(), digest.total_churn());
    let across = render::quantity(digest.repos.len(), "repository", "repositories");
    let mut out = paragraph(
        strings::cat4(stats.as_str(), " across ", across.as_str(), ".").as_str(),
    );
    let with_date = render::dates_needed(digest);
    let list = render::lists_commits(&digest.window);
    out.append(section_blocks(sections, config, with_date, list).as_str());
    out.append("\n");
    out
}

fn notes(list: &Vec<Note>) -> (out: String)
    ensures
        out@ == notes_text(strings::views(list@)),
{
    broadcast use strings::group_lists;

    let ghost all = strings::views(list@);
    if list.len() == 0 {
        return String::new();
    }
    let mut items = String::new();
    for i in 0..list.len()
        invariant
            all == strings::views(list@),
            items@ == note_list_text(all.take(i as int)),
    {
        broadcast use strings::group_lists;

        assert(all.take(i as int).push(all[i as int]) == all.take(i + 1));
        assert(all[i as int] == list@[i as int]@);
        let loud = list[i].severity == Severity::Warning;
        items.append(item(0, marked(loud, list[i].message.as_str()).as_str()).as_str());
    }
    assert(all.take(all.len() as int) =~= all);
    strings::cat3(paragraph("Notes:").as_str(), items.as_str(), "\n")
}

/// The digest as Markdown, ready to paste.
pub fn markdown(digest: &Digest, config: &Config, grouping: Option<&Grouping>) -> (out: String)
    ensures
        out@ == digest_text(digest@, config@, strings::view_of(grouping)),
{
    let mut out = header(digest);
    let caveat = match grouping {
        Some(grouping) => paragraph(esc(grouping.caveat().as_str()).as_str()),
        None => String::new(),
    };
    out.append(caveat.as_str());
    let sections = render::sections(digest, grouping);
    out.append(body(digest, config, &sections).as_str());
    let closing = if render::without_headings(&sections) {
        quiet_paragraph(&render::quiet_in(&sections))
    } else {
        String::new()
    };
    out.append(closing.as_str());
    out.append(notes(&digest.notes).as_str());
    let mut tidy = strings::trim_end_of(out.as_str(), '\n');
    tidy.push('\n');
    tidy
}

// ---------------------------------------------------------------------------
// The comparison
// ---------------------------------------------------------------------------

/// The checkouts of a comparison that moved.
pub open spec fn moved(checkouts: Seq<(Text, Movement)>) -> Seq<(Text, Movement)> {
    checkouts.filter(|pair: (Text, Movement)| pair.1 != Movement::Unchanged)
}

pub open spec fn movement_text(pair: (Text, Movement), home: Option<Text>) -> Text {
    let sentence = if pair.1.calls_for_action() {
        "**"@ + escaped(pair.1.words()) + "**"@
    } else {
        escaped(pair.1.words())
    };
    "  - "@ + code_text(render::short_path(render::from_home(pair.0, home), MD_PATH_COLUMNS as nat))
        + " \u{2014} "@ + sentence + "\n"@
}

pub open spec fn movements_text(pairs: Seq<(Text, Movement)>, home: Option<Text>) -> Text
    decreases pairs.len(),
{
    if pairs.len() == 0 {
        Seq::empty()
    } else {
        movements_text(pairs.drop_last(), home) + movement_text(pairs.last(), home)
    }
}

/// The repositories that moved, each with the checkouts that did.
pub open spec fn moves_text(repos: Seq<model::RepoComparisonView>, home: Option<Text>) -> Text
    decreases repos.len(),
{
    if repos.len() == 0 {
        Seq::empty()
    } else {
        let before = moves_text(repos.drop_last(), home);
        let here = moved(repos.last().checkouts);
        if here.len() == 0 {
            before
        } else {
            before + ("- **"@ + escaped(repos.last().name) + "**\n"@ + movements_text(here, home))
        }
    }
}

/// The names of the repositories that did not move.
pub open spec fn unmoved(repos: Seq<model::RepoComparisonView>) -> Seq<Text>
    decreases repos.len(),
{
    if repos.len() == 0 {
        Seq::empty()
    } else {
        let before = unmoved(repos.drop_last());
        if moved(repos.last().checkouts).len() == 0 {
            before.push(repos.last().name)
        } else {
            before
        }
    }
}

pub open spec fn comparison_text(comparison: model::ComparisonView, home: Option<Text>) -> Text {
    let start = "**standup** \u{2014} what changed between **"@ + escaped(comparison.before.full())
        + "** and **"@ + escaped(comparison.after.full()) + "**\n\n"@;
    let across = render::counted(comparison.repos.len(), "repository"@, "repositories"@);
    if comparison.repos.len() == 0 {
        start + "Neither digest found a repository, so there is nothing to compare.\n"@
    } else if comparison.quiet() {
        start + "Nothing moved, across "@ + across + ".\n"@
    } else {
        let names = unmoved(comparison.repos);
        let told = start + render::counted(
            crate::compare::new_total(comparison.repos) as nat,
            "new commit"@,
            "new commits"@,
        ) + " across "@ + across + ".\n\n"@ + moves_text(comparison.repos, home);
        if names.len() == 0 {
            told
        } else {
            told + "\nUnchanged: "@ + strings::joined(all_escaped(names), ", "@) + ".\n"@
        }
    }
}

/// The checkouts of a comparison that moved, in order.
pub fn moved_of(repo: &RepoComparison) -> (out: Vec<&(String, Movement)>)
    ensures
        strings::views(out@) == moved(repo@.checkouts),
{
    broadcast use strings::group_lists;

    let ghost all = repo@.checkouts;
    let ghost pred = |pair: (Text, Movement)| pair.1 != Movement::Unchanged;
    let mut out: Vec<&(String, Movement)> = Vec::new();
    proof {
        reveal(Seq::filter);
    }
    for i in 0..repo.checkouts.len()
        invariant
            all == strings::views(repo.checkouts@),
            pred == (|pair: (Text, Movement)| pair.1 != Movement::Unchanged),
            strings::views(out@) == all.take(i as int).filter(pred),
    {
        broadcast use strings::group_lists;

        reveal(Seq::filter);
        assert(all.take(i as int).push(all[i as int]) == all.take(i + 1));
        let pair = &repo.checkouts[i];
        assert(all[i as int] == pair@);
        if pair.1.activity() != model::Activity::Quiet {
            out.push(pair);
        }
    }
    assert(all.take(all.len() as int) =~= all);
    out
}

fn movement_items(pairs: &Vec<&(String, Movement)>, home: &Option<String>) -> (out: String)
    ensures
        out@ == movements_text(strings::views(pairs@), strings::view_of(*home)),
{
    broadcast use strings::group_lists;

    let ghost all = strings::views(pairs@);
    let mut out = String::new();
    for i in 0..pairs.len()
        invariant
            all == strings::views(pairs@),
            out@ == movements_text(all.take(i as int), strings::view_of(*home)),
    {
        broadcast use strings::group_lists;

        assert(all.take(i as int).push(all[i as int]) == all.take(i + 1));
        let (path, movement) = pairs[i];
        assert(all[i as int] == (path@, *movement));
        let words = esc(movement.sentence().as_str());
        let sentence = if movement.loud() {
            strings::cat3("**", words.as_str(), "**")
        } else {
            words
        };
        let shown = render::shorten_path(path.as_str(), MD_PATH_COLUMNS, home);
        out.append(
            strings::cat5(
                "  - ",
                code(shown.as_str()).as_str(),
                " \u{2014} ",
                sentence.as_str(),
                "\n",
            ).as_str(),
        );
    }
    assert(all.take(all.len() as int) =~= all);
    out
}

fn move_lists(repos: &Vec<RepoComparison>, home: &Option<String>) -> (out: String)
    ensures
        out@ == moves_text(strings::views(repos@), strings::view_of(*home)),
{
    broadcast use strings::group_lists;

    let ghost all = strings::views(repos@);
    let mut out = String::new();
    for i in 0..repos.len()
        invariant
            all == strings::views(repos@),
            out@ == moves_text(all.take(i as int), strings::view_of(*home)),
    {
        broadcast use strings::group_lists;

        assert(all.take(i as int).push(all[i as int]) == all.take(i + 1));
        assert(all[i as int] == repos@[i as int]@);
        let here = moved_of(&repos[i]);
        assert(strings::views(here@).len() == here@.len());
        if here.len() > 0 {
            let block = strings::cat4(
                "- **",
                esc(repos[i].name.as_str()).as_str(),
                "**\n",
                movement_items(&here, home).as_str(),
            );
            out.append(block.as_str());
        }
    }
    assert(all.take(all.len() as int) =~= all);
    out
}

/// The names of the repositories of a comparison that did not move.
pub fn unmoved_of(repos: &Vec<RepoComparison>) -> (out: Vec<String>)
    ensures
        strings::views(out@) == unmoved(strings::views(repos@)),
{
    broadcast use strings::group_lists;

    let ghost all = strings::views(repos@);
    let mut out: Vec<String> = Vec::new();
    for i in 0..repos.len()
        invariant
            all == strings::views(repos@),
            strings::views(out@) == unmoved(all.take(i as int)),
    {
        broadcast use strings::group_lists;

        assert(all.take(i as int).push(all[i as int]) == all.take(i + 1));
        assert(all[i as int] == repos@[i as int]@);
        let here = moved_of(&repos[i]);
        assert(strings::views(here@).len() == here@.len());
        if here.len() == 0 {
            out.push(repos[i].name.clone());
        }
    }
    assert(all.take(all.len() as int) =~= all);
    out
}

/// A comparison as Markdown, for pasting where the digest goes.
pub fn comparison(found: &Comparison, home: &Option<String>) -> (out: String)
    ensures
        out@ == comparison_text(found@, strings::view_of(*home)),
{
    let start = strings::cat5(
        "**standup** \u{2014} what changed between **",
        esc(found.before.full().as_str()).as_str(),
        "** and **",
        esc(found.after.full().as_str()).as_str(),
        "**\n\n",
    );
    assert(found@.repos.len() == found.repos@.len());
    if found.repos.len() == 0 {
        return strings::cat2(
            start.as_str(),
            "Neither digest found a repository, so there is nothing to compare.\n",
        );
    }
    let across = render::quantity(found.repos.len(), "repository", "repositories");
    if found.is_quiet() {
        return strings::cat4(start.as_str(), "Nothing moved, across ", across.as_str(), ".\n");
    }
    let new = render::quantity(found.total_commits(), "new commit", "new commits");
    let mut told = strings::cat5(start.as_str(), new.as_str(), " across ", across.as_str(), ".\n\n");
    told.append(move_lists(&found.repos, home).as_str());
    let names = unmoved_of(&found.repos);
    assert(strings::views(names@).len() == names@.len());
    if names.len() == 0 {
        return told;
    }
    strings::cat4(
        told.as_str(),
        "\nUnchanged: ",
        strings::join(&esc_all(&names), ", ").as_str(),
        ".\n",
    )
}

} // verus!
