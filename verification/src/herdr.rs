//! What the session says, reduced to the workspaces and the directories they
//! occupy.
//!
//! The payload is `{"type":"session_snapshot","snapshot":{...}}` and the arrays
//! live one level **down**, under `snapshot`; reading them off the result object
//! yields no workspaces at all, which looks exactly like an idle session. So the
//! result type, the snapshot object and its three arrays are required, never
//! optional empty fallbacks.

use std::cmp::Ordering;

use vstd::prelude::*;

use crate::config::RepositoryScope;
use crate::model;
use crate::model::{AgentRef, Text, WorkspaceRef};
use crate::order;
use crate::paths;
use crate::strings;

verus! {

// ---------------------------------------------------------------------------
// Values
// ---------------------------------------------------------------------------

/// A JSON value: what it holds, and its compact text.
#[derive(Debug, PartialEq, Eq)]
pub struct Json {
    pub shown: String,
    pub body: Body,
}

/// What a JSON value holds, as far as it is ever looked at.
#[derive(Debug, PartialEq, Eq)]
pub enum Body {
    Text(String),
    /// A number, where it is a whole one that is not negative.
    Number(u64),
    List(Vec<Json>),
    Object(Vec<(String, Json)>),
    /// Anything else.
    Other,
}

/// The field of an object; any other value has none.
pub open spec fn field(value: Json, key: Text) -> Option<Json> {
    match value.body {
        Body::Object(fields) => lookup(fields@, key),
        _ => None,
    }
}

pub open spec fn lookup(fields: Seq<(String, Json)>, key: Text) -> Option<Json>
    decreases fields.len(),
{
    if fields.len() == 0 {
        None
    } else if fields[0].0@ == key {
        Some(fields[0].1)
    } else {
        lookup(fields.drop_first(), key)
    }
}

/// The text of a field, trimmed. Empty strings are sent for absent context, so
/// empty means absent.
pub open spec fn text_field(value: Json, key: Text) -> Option<Text> {
    match field(value, key) {
        Some(found) => match found.body {
            Body::Text(s) => if strings::trimmed(s@).len() > 0 {
                Some(strings::trimmed(s@))
            } else {
                None
            },
            _ => None,
        },
        None => None,
    }
}

fn get<'a>(value: &'a Json, key: &str) -> (out: Option<&'a Json>)
    ensures
        match out {
            Some(found) => field(*value, key@) == Some(*found),
            None => field(*value, key@) is None,
        },
{
    match &value.body {
        Body::Object(fields) => {
            assert(fields@.skip(0) =~= fields@);
            for i in 0..fields.len()
                invariant
                    value.body == Body::Object(*fields),
                    lookup(fields@.skip(i as int), key@) == lookup(fields@, key@),
            {
                let ghost rest = fields@.skip(i as int);
                assert(rest[0] == fields@[i as int]);
                assert(rest.drop_first() =~= fields@.skip(i + 1));
                if strings::same(fields[i].0.as_str(), key) {
                    return Some(&fields[i].1);
                }
            }
            None
        },
        _ => None,
    }
}

/// Non-empty string field.
pub fn text(value: &Json, key: &str) -> (out: Option<String>)
    ensures
        strings::view_of(out) == text_field(*value, key@),
{
    match get(value, key) {
        Some(found) => match &found.body {
            Body::Text(s) => {
                let trimmed = strings::trim(s.as_str());
                if strings::is_empty(trimmed.as_str()) {
                    None
                } else {
                    Some(trimmed)
                }
            },
            _ => None,
        },
        None => None,
    }
}

/// Whether a field holds this text.
fn text_is(value: &Json, key: &str, wanted: &str) -> (answer: bool)
    ensures
        answer == (text_field(*value, key@) == Some(wanted@)),
{
    match text(value, key) {
        Some(found) => strings::same(found.as_str(), wanted),
        None => false,
    }
}

// ---------------------------------------------------------------------------
// Errors
// ---------------------------------------------------------------------------

/// An error that the session answered with.
#[derive(Debug, PartialEq, Eq)]
pub struct HerdrError<T = String> {
    pub code: T,
    pub message: T,
}

impl HerdrError {
    pub fn text(&self) -> (out: String)
        ensures
            out@ == "herdr "@ + self.code@ + ": "@ + self.message@,
    {
        strings::cat4("herdr ", self.code.as_str(), ": ", self.message.as_str())
    }
}

/// Why a request failed: an answer that is an error, or trouble on the way.
#[derive(Debug, PartialEq, Eq)]
pub enum Failure {
    Answered(HerdrError),
    Other(String),
}

impl Failure {
    pub fn text(&self) -> (out: String)
        ensures
            out@ == match self {
                Failure::Answered(error) => "herdr "@ + error.code@ + ": "@ + error.message@,
                Failure::Other(message) => message@,
            },
    {
        match self {
            Failure::Answered(error) => error.text(),
            Failure::Other(message) => message.clone(),
        }
    }
}

/// The code of an error that the session answered with; `None` for trouble on
/// the way and for answers of the wrong shape.
pub fn error_code(failure: &Failure) -> (out: Option<&str>)
    ensures
        strings::view_of(out) == match failure {
            Failure::Answered(error) => Some(error.code@),
            Failure::Other(_) => None,
        },
{
    match failure {
        Failure::Answered(error) => Some(error.code.as_str()),
        Failure::Other(_) => None,
    }
}

pub open spec fn available_text(value: Option<Json>) -> Text {
    match value {
        Some(value) => match value.body {
            Body::Text(s) => "`"@ + s@ + "`"@,
            _ => "`"@ + value.shown@ + "`"@,
        },
        None => "missing"@,
    }
}

/// What is wrong with an answer, with what it says of itself.
pub open spec fn contract_text(result: Json, message: Text) -> Text {
    let snapshot = field(result, "snapshot"@);
    let inner = |key: Text|
        match snapshot {
            Some(snapshot) => field(snapshot, key),
            None => None,
        };
    "invalid herdr response contract for session.snapshot: "@ + message
        + "; available metadata: result type "@ + available_text(field(result, "type"@))
        + ", snapshot version "@ + available_text(inner("version"@)) + ", snapshot protocol "@
        + available_text(inner("protocol"@))
}

fn available(value: Option<&Json>) -> (out: String)
    ensures
        out@ == available_text(
            match value {
                Some(value) => Some(*value),
                None => None,
            },
        ),
{
    match value {
        Some(value) => match &value.body {
            Body::Text(s) => strings::cat3("`", s.as_str(), "`"),
            _ => strings::cat3("`", value.shown.as_str(), "`"),
        },
        None => "missing".to_string(),
    }
}

fn contract_error(result: &Json, message: &str) -> (out: String)
    ensures
        out@ == contract_text(*result, message@),
{
    let snapshot = get(result, "snapshot");
    let version = match snapshot {
        Some(snapshot) => get(snapshot, "version"),
        None => None,
    };
    let protocol = match snapshot {
        Some(snapshot) => get(snapshot, "protocol"),
        None => None,
    };
    let start = strings::cat4(
        "invalid herdr response contract for session.snapshot: ",
        message,
        "; available metadata: result type ",
        available(get(result, "type")).as_str(),
    );
    strings::cat5(
        start.as_str(),
        ", snapshot version ",
        available(version).as_str(),
        ", snapshot protocol ",
        available(protocol).as_str(),
    )
}

// ---------------------------------------------------------------------------
// Paths
// ---------------------------------------------------------------------------

/// The suffix Linux appends to the working directory of a process whose
/// directory has been removed.
pub const DELETED_MARKER: &'static str = " (deleted)";

/// A path without the kernel's marker, unless there would be nothing left.
pub open spec fn unmarked(raw: Text) -> Text {
    if strings::ends(raw, DELETED_MARKER@) && raw.len() > DELETED_MARKER@.len() {
        raw.take(raw.len() - DELETED_MARKER@.len())
    } else {
        raw
    }
}

/// A reported path: no marker, no `.` component.
pub open spec fn tidy(raw: Text) -> Text {
    let path = unmarked(raw);
    if paths::plain(path).len() == 0 {
        path
    } else {
        paths::plain(path)
    }
}

fn without_marker(raw: &str) -> (out: String)
    ensures
        out@ == unmarked(raw@),
{
    let n = raw.unicode_len();
    let m = DELETED_MARKER.unicode_len();
    if strings::ends_with(raw, DELETED_MARKER) && n > m {
        let chars = strings::chars_of(raw);
        let kept = vstd::slice::slice_subrange(chars.as_slice(), 0, n - m);
        assert(kept@ =~= raw@.take(n - m));
        strings::string_of(kept)
    } else {
        raw.to_string()
    }
}

/// Normalises a path that the session reports.
///
/// These paths are rendered in the digest *and* used as the key that joins
/// workspaces to checkouts, where a difference of one character splits one
/// directory into two.
pub fn tidy_path(raw: &str) -> (out: String)
    ensures
        out@ == tidy(raw@),
{
    let path = without_marker(raw);
    let plain = paths::tidied(path.as_str());
    if strings::is_empty(plain.as_str()) {
        path
    } else {
        plain
    }
}

// ---------------------------------------------------------------------------
// The order of panes
// ---------------------------------------------------------------------------

/// A piece of a pane id: a number, by its digits without zeros in front, or any
/// other character, by its code point.
pub enum Token {
    Char(int),
    Number(Text),
}

/// The digits a text begins with.
pub open spec fn front_digits(s: Text) -> Text
    decreases s.len(),
{
    if s.len() > 0 && strings::digit(s[0]) {
        seq![s[0]] + front_digits(s.drop_first())
    } else {
        Seq::empty()
    }
}

pub open spec fn without_zeros(digits: Text) -> Text
    decreases digits.len(),
{
    if digits.len() > 0 && digits[0] == '0' {
        without_zeros(digits.drop_first())
    } else {
        digits
    }
}

pub open spec fn tokens(s: Text) -> Seq<Token>
    decreases s.len(),
{
    if s.len() == 0 {
        Seq::empty()
    } else if strings::digit(s[0]) {
        let run = front_digits(s);
        if 0 < run.len() <= s.len() {
            seq![Token::Number(without_zeros(run))] + tokens(s.skip(run.len() as int))
        } else {
            Seq::empty()
        }
    } else {
        seq![Token::Char(s[0] as int)] + tokens(s.drop_first())
    }
}

/// Numbers by value, the longer run of digits being the larger one; characters
/// by code point, a number among them where its digits are.
pub open spec fn token_before(a: Token, b: Token) -> bool {
    match (a, b) {
        (Token::Char(x), Token::Char(y)) => x < y,
        (Token::Number(x), Token::Number(y)) => if x.len() != y.len() {
            x.len() < y.len()
        } else {
            strings::precedes(x, y)
        },
        (Token::Char(x), Token::Number(_)) => x < 0x30,
        (Token::Number(_), Token::Char(y)) => 0x39 < y,
    }
}

/// Token by token, the first difference decides, and a shorter list goes first.
pub open spec fn list_before(a: Seq<Token>, b: Seq<Token>) -> bool
    decreases a.len(),
{
    if b.len() == 0 {
        false
    } else if a.len() == 0 {
        true
    } else if a[0] == b[0] {
        list_before(a.drop_first(), b.drop_first())
    } else {
        token_before(a[0], b[0])
    }
}

/// `w15:p2` before `w15:p10`.
pub open spec fn pane_before(a: Text, b: Text) -> bool {
    list_before(tokens(a), tokens(b))
}

proof fn lemma_front_digits(s: Text)
    ensures
        front_digits(s).len() <= s.len(),
        front_digits(s) == s.take(front_digits(s).len() as int),
        forall|i: int|
            0 <= i < front_digits(s).len() ==> strings::digit(#[trigger] front_digits(s)[i]),
        front_digits(s).len() < s.len() ==> !strings::digit(s[front_digits(s).len() as int]),
        s.len() > 0 && strings::digit(s[0]) ==> front_digits(s).len() > 0,
    decreases s.len(),
{
    if s.len() > 0 && strings::digit(s[0]) {
        let rest = s.drop_first();
        lemma_front_digits(rest);
        let run = front_digits(s);
        assert(run =~= s.take(run.len() as int)) by {
            assert forall|i: int| 0 <= i < run.len() implies run[i] == s[i] by {
                if i > 0 {
                    assert(run[i] == front_digits(rest)[i - 1]);
                    assert(rest.take(front_digits(rest).len() as int)[i - 1] == rest[i - 1]);
                }
            }
        }
    } else {
        assert(s.take(0) =~= Seq::empty());
    }
}

fn leading_digits(chars: &[char], from: usize) -> (end: usize)
    requires
        from < chars@.len(),
        strings::digit(chars@[from as int]),
    ensures
        from < end <= chars@.len(),
        chars@.subrange(from as int, end as int) == front_digits(chars@.skip(from as int)),
{
    let ghost s = chars@.skip(from as int);
    proof {
        lemma_front_digits(s);
    }
    let ghost run = front_digits(s);
    let mut end: usize = from;
    while end < chars.len() && strings::is_digit(chars[end])
        invariant
            s == chars@.skip(from as int),
            run == front_digits(s),
            run.len() <= s.len(),
            run == s.take(run.len() as int),
            run.len() < s.len() ==> !strings::digit(s[run.len() as int]),
            from <= end <= chars@.len(),
            end - from <= run.len(),
        decreases chars@.len() - end,
    {
        assert(s[end - from] == chars@[end as int]);
        end = end + 1;
    }
    proof {
        if end - from < run.len() {
            assert(run[end - from] == s.take(run.len() as int)[end - from]);
            assert(s[end - from] == chars@[end as int]);
        }
        assert(chars@.subrange(from as int, end as int) =~= s.take(run.len() as int));
        assert(s[0] == chars@[from as int]);
    }
    end
}

fn significant(digits: &[char]) -> (out: Vec<char>)
    ensures
        out@ == without_zeros(digits@),
{
    let mut start: usize = 0;
    assert(digits@.skip(0) =~= digits@);
    while start < digits.len() && digits[start] == '0'
        invariant
            start <= digits@.len(),
            without_zeros(digits@.skip(start as int)) == without_zeros(digits@),
        decreases digits@.len() - start,
    {
        assert(digits@.skip(start as int).drop_first() =~= digits@.skip(start + 1));
        start = start + 1;
    }
    let out = vstd::slice::slice_to_vec(
        vstd::slice::slice_subrange(digits, start, digits.len()),
    );
    assert(out@ =~= digits@.skip(start as int));
    out
}

/// How two things are ordered.
#[derive(Debug, Clone, Copy, PartialEq, Eq, Structural)]
pub enum Rank {
    Before,
    Same,
    After,
}

/// Whether this is the order of two token lists.
pub open spec fn ranks(rank: Rank, a: Seq<Token>, b: Seq<Token>) -> bool {
    match rank {
        Rank::Before => list_before(a, b) && !list_before(b, a),
        Rank::Same => !list_before(a, b) && !list_before(b, a) && a == b,
        Rank::After => list_before(b, a) && !list_before(a, b),
    }
}

fn rank_numbers(a: &Vec<char>, b: &Vec<char>) -> (out: Rank)
    ensures
        match out {
            Rank::Before => a@ != b@ && token_before(Token::Number(a@), Token::Number(b@))
                && !token_before(Token::Number(b@), Token::Number(a@)),
            Rank::Same => a@ == b@,
            Rank::After => a@ != b@ && token_before(Token::Number(b@), Token::Number(a@))
                && !token_before(Token::Number(a@), Token::Number(b@)),
        },
{
    proof {
        strings::law_precedes_is_a_strict_total_order(a@, b@, a@);
        strings::law_precedes_is_a_strict_total_order(b@, a@, b@);
    }
    if a.len() != b.len() {
        return if a.len() < b.len() {
            Rank::Before
        } else {
            Rank::After
        };
    }
    let left = strings::string_of(a.as_slice());
    let right = strings::string_of(b.as_slice());
    if strings::same(left.as_str(), right.as_str()) {
        Rank::Same
    } else if strings::comes_first(left.as_str(), right.as_str()) {
        Rank::Before
    } else {
        Rank::After
    }
}

/// Both lists with the same token in front rank as what follows it.
proof fn lemma_same_front(token: Token, a: Seq<Token>, b: Seq<Token>, rank: Rank)
    ensures
        ranks(rank, a, b) ==> ranks(rank, seq![token] + a, seq![token] + b),
{
    let left = seq![token] + a;
    let right = seq![token] + b;
    assert(left.drop_first() =~= a);
    assert(right.drop_first() =~= b);
}

/// The order of two pane ids.
pub fn natural(left: &str, right: &str) -> (out: Rank)
    ensures
        ranks(out, tokens(left@), tokens(right@)),
{
    let a = strings::chars_of(left);
    let b = strings::chars_of(right);
    natural_from(a.as_slice(), b.as_slice())
}

fn natural_from(a: &[char], b: &[char]) -> (out: Rank)
    ensures
        ranks(out, tokens(a@), tokens(b@)),
    decreases a@.len(),
{
    if a.len() == 0 || b.len() == 0 {
        proof {
            lemma_tokens_exist(a@);
            lemma_tokens_exist(b@);
        }
        return if b.len() > 0 {
            Rank::Before
        } else if a.len() > 0 {
            Rank::After
        } else {
            Rank::Same
        };
    }
    let x = a[0];
    let y = b[0];
    if strings::is_digit(x) && strings::is_digit(y) {
        let end = leading_digits(a, 0);
        let stop = leading_digits(b, 0);
        assert(a@.skip(0) =~= a@);
        assert(b@.skip(0) =~= b@);
        let run = vstd::slice::slice_subrange(a, 0, end);
        let other = vstd::slice::slice_subrange(b, 0, stop);
        assert(run@ =~= front_digits(a@));
        assert(other@ =~= front_digits(b@));
        let mine = significant(run);
        let theirs = significant(other);
        let rest = vstd::slice::slice_subrange(a, end, a.len());
        let remaining = vstd::slice::slice_subrange(b, stop, b.len());
        assert(rest@ =~= a@.skip(end as int));
        assert(remaining@ =~= b@.skip(stop as int));
        assert(tokens(a@) =~= seq![Token::Number(mine@)] + tokens(rest@));
        assert(tokens(b@) =~= seq![Token::Number(theirs@)] + tokens(remaining@));
        match rank_numbers(&mine, &theirs) {
            Rank::Same => {
                let rank = natural_from(rest, remaining);
                proof {
                    lemma_same_front(
                        Token::Number(mine@),
                        tokens(rest@),
                        tokens(remaining@),
                        rank,
                    );
                }
                rank
            },
            rank => {
                assert(tokens(a@)[0] == Token::Number(mine@));
                assert(tokens(b@)[0] == Token::Number(theirs@));
                rank
            },
        }
    } else {
        proof {
            lemma_first_token(a@);
            lemma_first_token(b@);
            lemma_front_digits(a@);
            lemma_front_digits(b@);
            assert(a@[0] == x && b@[0] == y);
            lemma_code_point(x);
            lemma_code_point(y);
        }
        if x == y {
            let rest = vstd::slice::slice_subrange(a, 1, a.len());
            let remaining = vstd::slice::slice_subrange(b, 1, b.len());
            assert(rest@ =~= a@.drop_first());
            assert(remaining@ =~= b@.drop_first());
            let rank = natural_from(rest, remaining);
            proof {
                lemma_same_front(Token::Char(x as int), tokens(rest@), tokens(remaining@), rank);
            }
            rank
        } else if x < y {
            Rank::Before
        } else {
            Rank::After
        }
    }
}

proof fn lemma_code_point(c: char)
    ensures
        c as u32 as int == c as int,
{
}

proof fn lemma_tokens_exist(s: Text)
    ensures
        tokens(s).len() == 0 <==> s.len() == 0,
{
    if s.len() > 0 {
        lemma_front_digits(s);
    }
}

/// The first token of a text: its first character, or the number that this is a
/// digit of.
proof fn lemma_first_token(s: Text)
    requires
        s.len() > 0,
    ensures
        tokens(s).len() > 0,
        match tokens(s)[0] {
            Token::Char(c) => c == s[0] as int && !strings::digit(s[0]) && tokens(s) == seq![
                Token::Char(s[0] as int),
            ] + tokens(s.drop_first()),
            Token::Number(_) => strings::digit(s[0]),
        },
{
    lemma_front_digits(s);
}

/// Orders `w15:p2` before `w15:p10`, which a plain comparison of strings does
/// not. A digest whose agents reshuffle between runs is one nobody can diff.
pub fn natural_cmp(left: &str, right: &str) -> (out: Ordering)
    ensures
        match out {
            Ordering::Less => pane_before(left@, right@) && !pane_before(right@, left@),
            Ordering::Equal => !pane_before(left@, right@) && !pane_before(right@, left@),
            Ordering::Greater => pane_before(right@, left@) && !pane_before(left@, right@),
        },
{
    match natural(left, right) {
        Rank::Before => Ordering::Less,
        Rank::Same => Ordering::Equal,
        Rank::After => Ordering::Greater,
    }
}

proof fn lemma_token_order(a: Token, b: Token, c: Token)
    ensures
        !token_before(a, a),
        token_before(a, b) ==> !token_before(b, a),
        a != b ==> token_before(a, b) || token_before(b, a) || mixed(a, b),
        token_before(a, b) && token_before(b, c) ==> token_before(a, c),
{
    if let (Token::Number(x), Token::Number(y)) = (a, b) {
        strings::law_precedes_is_a_strict_total_order(x, y, y);
        strings::law_precedes_is_a_strict_total_order(y, x, x);
        if let Token::Number(z) = c {
            strings::law_precedes_is_a_strict_total_order(x, y, z);
        }
    }
    if let Token::Number(x) = a {
        strings::law_precedes_is_a_strict_total_order(x, x, x);
        if let Token::Number(z) = c {
            strings::law_precedes_is_a_strict_total_order(x, z, z);
        }
    }
}

/// A digit on its own, which never is a token, beside a number.
spec fn mixed(a: Token, b: Token) -> bool {
    (a is Char && 0x30 <= a->Char_0 <= 0x39) || (b is Char && 0x30 <= b->Char_0 <= 0x39)
}

/// Whether no token is a digit on its own.
spec fn whole(list: Seq<Token>) -> bool {
    forall|i: int|
        0 <= i < list.len() ==> !(#[trigger] list[i] is Char && 0x30 <= list[i]->Char_0 <= 0x39)
}

proof fn lemma_tokens_whole(s: Text)
    ensures
        whole(tokens(s)),
    decreases s.len(),
{
    if s.len() > 0 {
        lemma_front_digits(s);
        if strings::digit(s[0]) {
            let rest = tokens(s.skip(front_digits(s).len() as int));
            lemma_tokens_whole(s.skip(front_digits(s).len() as int));
            assert forall|i: int| 0 <= i < tokens(s).len() implies !(#[trigger] tokens(s)[i] is Char
                && 0x30 <= tokens(s)[i]->Char_0 <= 0x39) by {
                if i > 0 {
                    assert(tokens(s)[i] == rest[i - 1]);
                }
            }
        } else {
            let rest = tokens(s.drop_first());
            lemma_tokens_whole(s.drop_first());
            assert forall|i: int| 0 <= i < tokens(s).len() implies !(#[trigger] tokens(s)[i] is Char
                && 0x30 <= tokens(s)[i]->Char_0 <= 0x39) by {
                if i > 0 {
                    assert(tokens(s)[i] == rest[i - 1]);
                }
            }
        }
    }
}

proof fn lemma_list_order(a: Seq<Token>, b: Seq<Token>, c: Seq<Token>)
    requires
        whole(a),
        whole(b),
        whole(c),
    ensures
        !list_before(a, a),
        list_before(a, b) && list_before(b, c) ==> list_before(a, c),
        !list_before(a, b) && !list_before(b, c) ==> !list_before(a, c),
        a != b ==> list_before(a, b) || list_before(b, a),
    decreases a.len() + b.len() + c.len(),
{
    if a.len() > 0 {
        lemma_whole_rest(a);
        lemma_list_self(a);
    }
    if a.len() == 0 && b.len() == 0 {
        assert(a =~= b);
    }
    if a.len() > 0 && b.len() > 0 && c.len() > 0 {
        lemma_whole_rest(b);
        lemma_whole_rest(c);
        lemma_list_order(a.drop_first(), b.drop_first(), c.drop_first());
        lemma_token_order(a[0], b[0], c[0]);
        lemma_token_order(b[0], c[0], a[0]);
        lemma_token_order(a[0], c[0], b[0]);
        lemma_token_order(c[0], b[0], a[0]);
        lemma_token_order(b[0], a[0], c[0]);
        lemma_token_order(c[0], a[0], b[0]);
        if a[0] == b[0] && a.drop_first() == b.drop_first() {
            assert(a =~= seq![a[0]] + a.drop_first());
            assert(b =~= seq![b[0]] + b.drop_first());
        }
    } else if a.len() > 0 && b.len() > 0 {
        lemma_whole_rest(b);
        lemma_token_order(a[0], b[0], a[0]);
        lemma_token_order(b[0], a[0], b[0]);
        lemma_list_order(a.drop_first(), b.drop_first(), c);
        if a[0] == b[0] && a.drop_first() == b.drop_first() {
            assert(a =~= seq![a[0]] + a.drop_first());
            assert(b =~= seq![b[0]] + b.drop_first());
        }
    }
}

proof fn lemma_whole_rest(a: Seq<Token>)
    requires
        whole(a),
        a.len() > 0,
    ensures
        whole(a.drop_first()),
        !(a[0] is Char && 0x30 <= a[0]->Char_0 <= 0x39),
{
    assert forall|i: int| 0 <= i < a.drop_first().len() implies !(#[trigger] a.drop_first()[i] is Char
        && 0x30 <= a.drop_first()[i]->Char_0 <= 0x39) by {
        assert(a.drop_first()[i] == a[i + 1]);
    }
    assert(a[0] == a[0]);
}

proof fn lemma_list_self(a: Seq<Token>)
    ensures
        !list_before(a, a),
    decreases a.len(),
{
    if a.len() > 0 {
        lemma_list_self(a.drop_first());
    }
}

/// The order of panes is an ordering: no pane goes before itself, going before
/// chains, and so does not going before.
pub proof fn law_pane_order_is_an_ordering(a: Text, b: Text, c: Text)
    ensures
        !pane_before(a, a),
        pane_before(a, b) && pane_before(b, c) ==> pane_before(a, c),
        !pane_before(a, b) && !pane_before(b, c) ==> !pane_before(a, c),
{
    lemma_tokens_whole(a);
    lemma_tokens_whole(b);
    lemma_tokens_whole(c);
    lemma_list_order(tokens(a), tokens(b), tokens(c));
}

// ---------------------------------------------------------------------------
// Reduction
// ---------------------------------------------------------------------------

pub open spec fn in_workspace(row: Json, workspace_id: Text) -> bool {
    text_field(row, "workspace_id"@) == Some(workspace_id)
}

/// The path of the checkout that a workspace is tracked under.
pub open spec fn tracked_checkout(workspace: Json) -> Option<Text> {
    match field(workspace, "worktree"@) {
        Some(worktree) => if worktree.body is Object {
            text_field(worktree, "checkout_path"@)
        } else {
            None
        },
        None => None,
    }
}

/// What the directories of a workspace begin with: its tracked checkout; where
/// it has none, the directory the plugin was invoked from, if it was invoked
/// from there.
pub open spec fn first_paths(
    workspace_id: Text,
    workspace: Json,
    scope: RepositoryScope<Text>,
) -> Seq<Text> {
    match tracked_checkout(workspace) {
        Some(checkout) => seq![tidy(checkout)],
        None => if scope.workspace_id == Some(workspace_id) && scope.invocation_cwd is Some {
            seq![tidy(scope.invocation_cwd->0)]
        } else {
            Seq::empty()
        },
    }
}

/// Whether a directory belongs to the installed plugin rather than to the user.
pub open spec fn is_plugin_path(path: Text, scope: RepositoryScope<Text>) -> bool {
    match scope.plugin_root {
        Some(root) => paths::inside(path, root),
        None => false,
    }
}

/// Directories with those of the user's panes in the workspace, each once, in
/// pane order.
pub open spec fn pane_paths(
    start: Seq<Text>,
    panes: Seq<Json>,
    workspace_id: Text,
    scope: RepositoryScope<Text>,
) -> Seq<Text>
    decreases panes.len(),
{
    if panes.len() == 0 {
        start
    } else {
        let before = pane_paths(start, panes.drop_last(), workspace_id, scope);
        let pane = panes.last();
        match text_field(pane, "cwd"@) {
            Some(cwd) => if in_workspace(pane, workspace_id) && !is_plugin_path(tidy(cwd), scope) {
                paths::with_place(before, tidy(cwd))
            } else {
                before
            },
            None => before,
        }
    }
}

/// The directories a workspace occupies.
pub open spec fn workspace_paths(
    workspace_id: Text,
    workspace: Json,
    panes: Seq<Json>,
    scope: RepositoryScope<Text>,
) -> Seq<Text> {
    pane_paths(first_paths(workspace_id, workspace, scope), panes, workspace_id, scope)
}

/// The session of an agent: an object on the wire, and absent for some.
pub open spec fn session_text(row: Json) -> Option<Text> {
    match field(row, "agent_session"@) {
        Some(session) => if session.body is Object {
            text_field(session, "value"@)
        } else {
            None
        },
        None => None,
    }
}

pub open spec fn tidied(path: Option<Text>) -> Option<Text> {
    match path {
        Some(path) => Some(tidy(path)),
        None => None,
    }
}

/// The directory of the first pane in the workspace with an id.
pub open spec fn pane_cwd(panes: Seq<Json>, workspace_id: Text, pane_id: Text) -> Option<Text>
    decreases panes.len(),
{
    if panes.len() == 0 {
        None
    } else if in_workspace(panes[0], workspace_id) && text_field(panes[0], "pane_id"@) == Some(
        pane_id,
    ) {
        tidied(text_field(panes[0], "cwd"@))
    } else {
        pane_cwd(panes.drop_first(), workspace_id, pane_id)
    }
}

/// Where an agent was working: its own directory, else its pane's.
pub open spec fn row_cwd(row: Json, panes: Seq<Json>, workspace_id: Text) -> Option<Text> {
    match text_field(row, "cwd"@) {
        Some(cwd) => Some(tidy(cwd)),
        None => match text_field(row, "pane_id"@) {
            Some(pane_id) => pane_cwd(panes, workspace_id, pane_id),
            None => None,
        },
    }
}

pub open spec fn row_agent(row: Json, panes: Seq<Json>, workspace_id: Text) -> AgentRef<Text> {
    AgentRef {
        name: text_field(row, "name"@),
        program: text_field(row, "agent"@),
        session_id: session_text(row),
        pane_id: match text_field(row, "pane_id"@) {
            Some(pane_id) => pane_id,
            None => Seq::empty(),
        },
        status: text_field(row, "agent_status"@),
        cwd: row_cwd(row, panes, workspace_id),
    }
}

/// The agents that have a row of their own.
pub open spec fn row_agents(
    rows: Seq<Json>,
    panes: Seq<Json>,
    workspace_id: Text,
) -> Seq<AgentRef<Text>>
    decreases rows.len(),
{
    if rows.len() == 0 {
        Seq::empty()
    } else {
        let before = row_agents(rows.drop_last(), panes, workspace_id);
        if in_workspace(rows.last(), workspace_id) {
            before.push(row_agent(rows.last(), panes, workspace_id))
        } else {
            before
        }
    }
}

pub open spec fn has_pane(agents: Seq<AgentRef<Text>>, pane_id: Text) -> bool {
    exists|i: int| 0 <= i < agents.len() && (#[trigger] agents[i]).pane_id == pane_id
}

/// Agents with those of panes that have no row, as a workspace enumerated while
/// an agent is starting has. Such an agent still ran, so it still counts; only
/// the user's name for it is unavailable.
pub open spec fn pane_agents(
    start: Seq<AgentRef<Text>>,
    panes: Seq<Json>,
    workspace_id: Text,
) -> Seq<AgentRef<Text>>
    decreases panes.len(),
{
    if panes.len() == 0 {
        start
    } else {
        let before = pane_agents(start, panes.drop_last(), workspace_id);
        let pane = panes.last();
        match (text_field(pane, "pane_id"@), text_field(pane, "agent"@)) {
            (Some(pane_id), Some(program)) => if in_workspace(pane, workspace_id) && !has_pane(
                before,
                pane_id,
            ) {
                before.push(
                    AgentRef {
                        name: None,
                        program: Some(program),
                        session_id: session_text(pane),
                        pane_id,
                        status: text_field(pane, "agent_status"@),
                        cwd: tidied(text_field(pane, "cwd"@)),
                    },
                )
            } else {
                before
            },
            _ => before,
        }
    }
}

/// The agents of a workspace, in the order of their panes.
pub open spec fn workspace_agents(
    rows: Seq<Json>,
    panes: Seq<Json>,
    workspace_id: Text,
) -> Seq<AgentRef<Text>> {
    order::arranged(
        pane_agents(row_agents(rows, panes, workspace_id), panes, workspace_id),
        |a: AgentRef<Text>, b: AgentRef<Text>| pane_before(a.pane_id, b.pane_id),
    )
}

pub open spec fn number_field(value: Json, key: Text) -> Option<u64> {
    match field(value, key) {
        Some(found) => match found.body {
            Body::Number(n) => Some(n),
            _ => None,
        },
        None => None,
    }
}

pub open spec fn workspace_ref(
    workspace_id: Text,
    workspace: Json,
    panes: Seq<Json>,
    rows: Seq<Json>,
    scope: RepositoryScope<Text>,
) -> model::WorkspaceView {
    model::WorkspaceView {
        workspace_id,
        label: match text_field(workspace, "label"@) {
            Some(label) => label,
            None => workspace_id,
        },
        number: number_field(workspace, "number"@),
        paths: workspace_paths(workspace_id, workspace, panes, scope),
        agents: workspace_agents(rows, panes, workspace_id),
        agent_status: text_field(workspace, "agent_status"@),
    }
}

/// The workspaces with an id and somewhere on disk to look.
pub open spec fn workspace_refs(
    workspaces: Seq<Json>,
    panes: Seq<Json>,
    rows: Seq<Json>,
    scope: RepositoryScope<Text>,
) -> Seq<model::WorkspaceView>
    decreases workspaces.len(),
{
    if workspaces.len() == 0 {
        Seq::empty()
    } else {
        let before = workspace_refs(workspaces.drop_last(), panes, rows, scope);
        let last = workspaces.last();
        match text_field(last, "workspace_id"@) {
            Some(id) => if workspace_paths(id, last, panes, scope).len() == 0 {
                before
            } else {
                before.push(workspace_ref(id, last, panes, rows, scope))
            },
            None => before,
        }
    }
}

/// An array of the snapshot.
pub open spec fn array_field(snapshot: Json, name: Text) -> Option<Seq<Json>> {
    match field(snapshot, name) {
        Some(found) => match found.body {
            Body::List(items) => Some(items@),
            _ => None,
        },
        None => None,
    }
}

pub open spec fn missing_array_text(name: Text) -> Text {
    "required `snapshot."@ + name + "` must be an array"@
}

/// What a snapshot comes to. An answer of another shape is an error, never an
/// empty session.
pub open spec fn reduced(
    result: Json,
    scope: RepositoryScope<Text>,
) -> Result<Seq<model::WorkspaceView>, Text> {
    let typed = match field(result, "type"@) {
        Some(found) => match found.body {
            Body::Text(s) => s@ == "session_snapshot"@,
            _ => false,
        },
        None => false,
    };
    match field(result, "snapshot"@) {
        Some(snapshot) => if !typed {
            Err(contract_text(result, "expected result `type` to be `session_snapshot`"@))
        } else if !(snapshot.body is Object) {
            Err(contract_text(result, "required `snapshot` must be an object"@))
        } else if array_field(snapshot, "workspaces"@) is None {
            Err(contract_text(result, missing_array_text("workspaces"@)))
        } else if array_field(snapshot, "panes"@) is None {
            Err(contract_text(result, missing_array_text("panes"@)))
        } else if array_field(snapshot, "agents"@) is None {
            Err(contract_text(result, missing_array_text("agents"@)))
        } else {
            Ok(
                workspace_refs(
                    array_field(snapshot, "workspaces"@)->0,
                    array_field(snapshot, "panes"@)->0,
                    array_field(snapshot, "agents"@)->0,
                    scope,
                ),
            )
        },
        None => if !typed {
            Err(contract_text(result, "expected result `type` to be `session_snapshot`"@))
        } else {
            Err(contract_text(result, "required `snapshot` must be an object"@))
        },
    }
}

fn object_field<'a>(value: &'a Json, key: &str) -> (out: Option<&'a Json>)
    ensures
        match out {
            Some(found) => field(*value, key@) == Some(*found) && found.body is Object,
            None => field(*value, key@) is None || !((field(*value, key@)->0).body is Object),
        },
{
    match get(value, key) {
        Some(found) => match &found.body {
            Body::Object(_) => Some(found),
            _ => None,
        },
        None => None,
    }
}

fn starting_paths(
    workspace_id: &str,
    workspace: &Json,
    scope: &RepositoryScope,
) -> (out: Vec<String>)
    ensures
        strings::views(out@) == first_paths(workspace_id@, *workspace, scope@),
{
    broadcast use strings::group_lists;

    let mut out: Vec<String> = Vec::new();
    assert(strings::views(out@) =~= Seq::empty());
    let listed = match object_field(workspace, "worktree") {
        Some(worktree) => text(worktree, "checkout_path"),
        None => None,
    };
    match listed {
        Some(checkout) => {
            out.push(tidy_path(checkout.as_str()));
            assert(strings::views(out@) =~= seq![tidy(checkout@)]);
        },
        None => {
            let here = match &scope.workspace_id {
                Some(id) => strings::same(id.as_str(), workspace_id),
                None => false,
            };
            if here {
                if let Some(cwd) = &scope.invocation_cwd {
                    out.push(tidy_path(cwd.as_str()));
                    assert(strings::views(out@) =~= seq![tidy(cwd@)]);
                }
            }
        },
    }
    out
}

fn belongs_to_plugin(path: &str, scope: &RepositoryScope) -> (answer: bool)
    ensures
        answer == is_plugin_path(path@, scope@),
{
    match &scope.plugin_root {
        Some(root) => paths::is_inside(path, root.as_str()),
        None => false,
    }
}

fn paths_of(
    workspace_id: &str,
    workspace: &Json,
    panes: &Vec<Json>,
    scope: &RepositoryScope,
) -> (out: Vec<String>)
    ensures
        strings::views(out@) == workspace_paths(workspace_id@, *workspace, panes@, scope@),
{
    let mut out = starting_paths(workspace_id, workspace, scope);
    let ghost start = strings::views(out@);
    for i in 0..panes.len()
        invariant
            strings::views(out@) == pane_paths(
                start,
                panes@.take(i as int),
                workspace_id@,
                scope@,
            ),
    {
        assert(panes@.take(i + 1).drop_last() =~= panes@.take(i as int));
        let pane = &panes[i];
        if text_is(pane, "workspace_id", workspace_id) {
            if let Some(cwd) = text(pane, "cwd") {
                let path = tidy_path(cwd.as_str());
                if !belongs_to_plugin(path.as_str(), scope) {
                    paths::push_unique(&mut out, path.as_str());
                }
            }
        }
    }
    assert(panes@.take(panes@.len() as int) =~= panes@);
    out
}

fn session_id(row: &Json) -> (out: Option<String>)
    ensures
        strings::view_of(out) == session_text(*row),
{
    match object_field(row, "agent_session") {
        Some(session) => text(session, "value"),
        None => None,
    }
}

fn tidy_option(path: Option<String>) -> (out: Option<String>)
    ensures
        strings::view_of(out) == tidied(strings::view_of(path)),
{
    match path {
        Some(path) => Some(tidy_path(path.as_str())),
        None => None,
    }
}

fn cwd_of_pane(panes: &Vec<Json>, workspace_id: &str, pane_id: &str) -> (out: Option<String>)
    ensures
        strings::view_of(out) == pane_cwd(panes@, workspace_id@, pane_id@),
{
    assert(panes@.skip(0) =~= panes@);
    for i in 0..panes.len()
        invariant
            pane_cwd(panes@.skip(i as int), workspace_id@, pane_id@) == pane_cwd(
                panes@,
                workspace_id@,
                pane_id@,
            ),
    {
        let ghost rest = panes@.skip(i as int);
        assert(rest[0] == panes@[i as int]);
        assert(rest.drop_first() =~= panes@.skip(i + 1));
        if text_is(&panes[i], "workspace_id", workspace_id) && text_is(
            &panes[i],
            "pane_id",
            pane_id,
        ) {
            return tidy_option(text(&panes[i], "cwd"));
        }
    }
    None
}

fn agent_cwd(row: &Json, panes: &Vec<Json>, workspace_id: &str) -> (out: Option<String>)
    ensures
        strings::view_of(out) == row_cwd(*row, panes@, workspace_id@),
{
    if let Some(cwd) = text(row, "cwd") {
        return Some(tidy_path(cwd.as_str()));
    }
    match text(row, "pane_id") {
        Some(pane_id) => cwd_of_pane(panes, workspace_id, pane_id.as_str()),
        None => None,
    }
}

fn agent_of_row(row: &Json, panes: &Vec<Json>, workspace_id: &str) -> (out: AgentRef)
    ensures
        out@ == row_agent(*row, panes@, workspace_id@),
{
    AgentRef {
        name: text(row, "name"),
        program: text(row, "agent"),
        session_id: session_id(row),
        pane_id: match text(row, "pane_id") {
            Some(pane_id) => pane_id,
            None => String::new(),
        },
        status: text(row, "agent_status"),
        cwd: agent_cwd(row, panes, workspace_id),
    }
}

fn knows_pane(agents: &Vec<AgentRef>, pane_id: &str) -> (answer: bool)
    ensures
        answer == has_pane(strings::views(agents@), pane_id@),
{
    let ghost all = strings::views(agents@);
    for i in 0..agents.len()
        invariant
            all == strings::views(agents@),
            forall|k: int| 0 <= k < i ==> (#[trigger] all[k]).pane_id != pane_id@,
    {
        assert(all[i as int] == agents@[i as int]@);
        if strings::same(agents[i].pane_id.as_str(), pane_id) {
            return true;
        }
    }
    false
}

fn agent_goes_first(a: &AgentRef, b: &AgentRef) -> (answer: bool)
    ensures
        answer == pane_before(a@.pane_id, b@.pane_id),
{
    match natural(a.pane_id.as_str(), b.pane_id.as_str()) {
        Rank::Before => true,
        _ => false,
    }
}

/// The agents that have a row of their own.
fn agents_of_rows(rows: &Vec<Json>, panes: &Vec<Json>, workspace_id: &str) -> (out: Vec<AgentRef>)
    ensures
        strings::views(out@) == row_agents(rows@, panes@, workspace_id@),
{
    broadcast use strings::group_lists;

    let mut out: Vec<AgentRef> = Vec::new();
    for i in 0..rows.len()
        invariant
            strings::views(out@) == row_agents(rows@.take(i as int), panes@, workspace_id@),
    {
        broadcast use strings::group_lists;

        assert(rows@.take(i + 1).drop_last() =~= rows@.take(i as int));
        if text_is(&rows[i], "workspace_id", workspace_id) {
            out.push(agent_of_row(&rows[i], panes, workspace_id));
        }
    }
    assert(rows@.take(rows@.len() as int) =~= rows@);
    out
}

/// The agents reported in one workspace, ordered by pane so that the digest is
/// stable between runs. Each carries the directory it was sitting in, where that
/// is known.
fn agents_of(rows: &Vec<Json>, panes: &Vec<Json>, workspace_id: &str) -> (out: Vec<AgentRef>)
    ensures
        strings::views(out@) == workspace_agents(rows@, panes@, workspace_id@),
{
    broadcast use strings::group_lists;

    let mut out = agents_of_rows(rows, panes, workspace_id);
    let ghost start = strings::views(out@);
    for i in 0..panes.len()
        invariant
            strings::views(out@) == pane_agents(start, panes@.take(i as int), workspace_id@),
    {
        broadcast use strings::group_lists;

        assert(panes@.take(i + 1).drop_last() =~= panes@.take(i as int));
        let pane = &panes[i];
        if text_is(pane, "workspace_id", workspace_id) {
            if let Some(pane_id) = text(pane, "pane_id") {
                if let Some(program) = text(pane, "agent") {
                    if !knows_pane(&out, pane_id.as_str()) {
                        out.push(
                            AgentRef {
                                name: None,
                                program: Some(program),
                                session_id: session_id(pane),
                                pane_id,
                                status: text(pane, "agent_status"),
                                cwd: tidy_option(text(pane, "cwd")),
                            },
                        );
                    }
                }
            }
        }
    }
    assert(panes@.take(panes@.len() as int) =~= panes@);
    order::arrange(
        out,
        agent_goes_first,
        Ghost(|a: AgentRef<Text>, b: AgentRef<Text>| pane_before(a.pane_id, b.pane_id)),
    )
}

fn number_of(value: &Json, key: &str) -> (out: Option<u64>)
    ensures
        out == number_field(*value, key@),
{
    match get(value, key) {
        Some(found) => match &found.body {
            Body::Number(n) => Some(*n),
            _ => None,
        },
        None => None,
    }
}

fn is_snapshot(result: &Json) -> (answer: bool)
    ensures
        answer == match field(*result, "type"@) {
            Some(found) => match found.body {
                Body::Text(s) => s@ == "session_snapshot"@,
                _ => false,
            },
            None => false,
        },
{
    match get(result, "type") {
        Some(found) => match &found.body {
            Body::Text(s) => strings::same(s.as_str(), "session_snapshot"),
            _ => false,
        },
        None => false,
    }
}

fn required_array<'a>(
    result: &Json,
    snapshot: &'a Json,
    name: &str,
) -> (out: Result<&'a Vec<Json>, String>)
    ensures
        match out {
            Ok(items) => array_field(*snapshot, name@) == Some(items@),
            Err(reason) => array_field(*snapshot, name@) is None && reason@ == contract_text(
                *result,
                missing_array_text(name@),
            ),
        },
{
    if let Some(found) = get(snapshot, name) {
        if let Body::List(items) = &found.body {
            return Ok(items);
        }
    }
    let message = strings::cat3("required `snapshot.", name, "` must be an array");
    Err(contract_error(result, message.as_str()))
}

fn references(
    workspaces: &Vec<Json>,
    panes: &Vec<Json>,
    rows: &Vec<Json>,
    scope: &RepositoryScope,
) -> (out: Vec<WorkspaceRef>)
    ensures
        strings::views(out@) == workspace_refs(workspaces@, panes@, rows@, scope@),
{
    broadcast use strings::group_lists;

    let mut out: Vec<WorkspaceRef> = Vec::new();
    for i in 0..workspaces.len()
        invariant
            strings::views(out@) == workspace_refs(
                workspaces@.take(i as int),
                panes@,
                rows@,
                scope@,
            ),
    {
        broadcast use strings::group_lists;

        assert(workspaces@.take(i + 1).drop_last() =~= workspaces@.take(i as int));
        let workspace = &workspaces[i];
        if let Some(id) = text(workspace, "workspace_id") {
            let paths = paths_of(id.as_str(), workspace, panes, scope);
            assert(strings::views(paths@).len() == paths@.len());
            if paths.len() > 0 {
                let label = match text(workspace, "label") {
                    Some(label) => label,
                    None => id.clone(),
                };
                let agents = agents_of(rows, panes, id.as_str());
                out.push(
                    WorkspaceRef {
                        workspace_id: id,
                        label,
                        number: number_of(workspace, "number"),
                        paths,
                        agents,
                        agent_status: text(workspace, "agent_status"),
                    },
                );
            }
        }
    }
    assert(workspaces@.take(workspaces@.len() as int) =~= workspaces@);
    out
}

pub open spec fn refs_are(
    found: Result<Vec<WorkspaceRef>, String>,
    expected: Result<Seq<model::WorkspaceView>, Text>,
) -> bool {
    match found {
        Ok(refs) => expected == Ok::<Seq<model::WorkspaceView>, Text>(strings::views(refs@)),
        Err(reason) => expected == Err::<Seq<model::WorkspaceView>, Text>(reason@),
    }
}

/// Reduces a snapshot while keeping an installed plugin's own checkout out of
/// the repository candidates.
pub fn reduce_snapshot_scoped(
    result: &Json,
    scope: &RepositoryScope,
) -> (out: Result<Vec<WorkspaceRef>, String>)
    ensures
        refs_are(out, reduced(*result, scope@)),
{
    if !is_snapshot(result) {
        return Err(
            contract_error(result, "expected result `type` to be `session_snapshot`"),
        );
    }
    let snapshot = match object_field(result, "snapshot") {
        Some(snapshot) => snapshot,
        None => {
            return Err(contract_error(result, "required `snapshot` must be an object"));
        },
    };
    let workspaces = match required_array(result, snapshot, "workspaces") {
        Ok(items) => items,
        Err(reason) => {
            return Err(reason);
        },
    };
    let panes = match required_array(result, snapshot, "panes") {
        Ok(items) => items,
        Err(reason) => {
            return Err(reason);
        },
    };
    let agents = match required_array(result, snapshot, "agents") {
        Ok(items) => items,
        Err(reason) => {
            return Err(reason);
        },
    };
    Ok(references(workspaces, panes, agents, scope))
}

/// Reduces a complete snapshot to workspace references.
pub fn reduce_snapshot(result: &Json) -> (out: Result<Vec<WorkspaceRef>, String>)
    ensures
        refs_are(out, reduced(*result, RepositoryScope::anywhere())),
{
    let scope = RepositoryScope::default();
    reduce_snapshot_scoped(result, &scope)
}

// ---------------------------------------------------------------------------
// Laws
// ---------------------------------------------------------------------------

/// A snapshot of the wrong shape is never an empty session: where the arrays are
/// not there, the answer is an error.
pub proof fn law_a_partial_snapshot_is_an_error(result: Json, scope: RepositoryScope<Text>)
    requires
        reduced(result, scope) is Ok,
    ensures
        ({
            let snapshot = field(result, "snapshot"@)->0;
            &&& field(result, "snapshot"@) is Some
            &&& array_field(snapshot, "workspaces"@) is Some
            &&& array_field(snapshot, "panes"@) is Some
            &&& array_field(snapshot, "agents"@) is Some
        }),
{
}

proof fn lemma_with_place(list: Seq<Text>, place: Text)
    requires
        places_differ(list),
    ensures
        places_differ(paths::with_place(list, place)),
{
}

/// Whether no two of the paths are one place.
pub open spec fn places_differ(list: Seq<Text>) -> bool {
    forall|i: int, j: int|
        0 <= i < j < list.len() ==> !paths::same_place(#[trigger] list[i], #[trigger] list[j])
}

/// A workspace occupies each directory once, however many panes sit in it.
pub proof fn law_a_workspace_has_each_directory_once(
    workspace_id: Text,
    workspace: Json,
    panes: Seq<Json>,
    scope: RepositoryScope<Text>,
)
    ensures
        places_differ(workspace_paths(workspace_id, workspace, panes, scope)),
    decreases panes.len(),
{
    let start = first_paths(workspace_id, workspace, scope);
    if panes.len() > 0 {
        law_a_workspace_has_each_directory_once(workspace_id, workspace, panes.drop_last(), scope);
        let before = pane_paths(start, panes.drop_last(), workspace_id, scope);
        if text_field(panes.last(), "cwd"@) is Some {
            lemma_with_place(before, tidy(text_field(panes.last(), "cwd"@)->0));
        }
    }
}

proof fn lemma_places_stay(list: Seq<Text>, place: Text, other: Text)
    requires
        paths::has_place(list, other) || paths::same_place(place, other),
    ensures
        paths::has_place(paths::with_place(list, place), other),
{
    let more = paths::with_place(list, place);
    if paths::has_place(list, other) {
        let i = choose|i: int| 0 <= i < list.len() && paths::same_place(#[trigger] list[i], other);
        assert(more[i] == list[i]);
    } else if paths::has_place(list, place) {
        let i = choose|i: int| 0 <= i < list.len() && paths::same_place(#[trigger] list[i], place);
        assert(more[i] == list[i]);
        paths::law_same_place_is_an_equivalence(list[i], place, other);
    } else {
        assert(more[list.len() as int] == place);
    }
}

/// The directories of a workspace are the union of the checkout it is recorded
/// under and the working directories of its panes: neither source hides the
/// other, and only the plugin's own directory is left out.
pub proof fn law_every_directory_is_a_candidate(
    workspace_id: Text,
    workspace: Json,
    panes: Seq<Json>,
    scope: RepositoryScope<Text>,
)
    ensures
        tracked_checkout(workspace) is Some ==> paths::has_place(
            workspace_paths(workspace_id, workspace, panes, scope),
            tidy(tracked_checkout(workspace)->0),
        ),
        forall|i: int|
            0 <= i < panes.len() && in_workspace(#[trigger] panes[i], workspace_id) && text_field(
                panes[i],
                "cwd"@,
            ) is Some && !is_plugin_path(tidy(text_field(panes[i], "cwd"@)->0), scope)
                ==> paths::has_place(
                workspace_paths(workspace_id, workspace, panes, scope),
                tidy(text_field(panes[i], "cwd"@)->0),
            ),
    decreases panes.len(),
{
    let start = first_paths(workspace_id, workspace, scope);
    let found = workspace_paths(workspace_id, workspace, panes, scope);
    if panes.len() == 0 {
        if tracked_checkout(workspace) is Some {
            let place = tidy(tracked_checkout(workspace)->0);
            paths::law_same_place_is_an_equivalence(place, place, place);
            assert(paths::same_place(start[0], place));
        }
    } else {
        let rest = panes.drop_last();
        law_every_directory_is_a_candidate(workspace_id, workspace, rest, scope);
        let before = pane_paths(start, rest, workspace_id, scope);
        let last = panes.last();
        assert forall|place: Text|
            #[trigger] paths::has_place(before, place) implies paths::has_place(found, place) by {
            if text_field(last, "cwd"@) is Some {
                lemma_places_stay(before, tidy(text_field(last, "cwd"@)->0), place);
            }
        }
        assert forall|i: int|
            0 <= i < panes.len() && in_workspace(#[trigger] panes[i], workspace_id) && text_field(
                panes[i],
                "cwd"@,
            ) is Some && !is_plugin_path(
                tidy(text_field(panes[i], "cwd"@)->0),
                scope,
            ) implies paths::has_place(found, tidy(text_field(panes[i], "cwd"@)->0)) by {
            let place = tidy(text_field(panes[i], "cwd"@)->0);
            if i < rest.len() {
                assert(rest[i] == panes[i]);
            } else {
                paths::law_same_place_is_an_equivalence(place, place, place);
                lemma_places_stay(before, place, place);
            }
        }
    }
}

/// The agents of a workspace are in the order of their panes.
pub proof fn law_agents_are_in_pane_order(rows: Seq<Json>, panes: Seq<Json>, workspace_id: Text)
    ensures
        order::in_order(
            workspace_agents(rows, panes, workspace_id),
            |a: AgentRef<Text>, b: AgentRef<Text>| pane_before(a.pane_id, b.pane_id),
        ),
{
    let before = |a: AgentRef<Text>, b: AgentRef<Text>| pane_before(a.pane_id, b.pane_id);
    assert(order::is_ordering(before)) by {
        assert forall|a: AgentRef<Text>| !#[trigger] before(a, a) by {
            law_pane_order_is_an_ordering(a.pane_id, a.pane_id, a.pane_id);
        }
        assert forall|a: AgentRef<Text>, b: AgentRef<Text>, c: AgentRef<Text>| #[trigger]
            before(a, b) && #[trigger] before(b, c) implies before(a, c) by {
            law_pane_order_is_an_ordering(a.pane_id, b.pane_id, c.pane_id);
        }
        assert forall|a: AgentRef<Text>, b: AgentRef<Text>, c: AgentRef<Text>| !#[trigger]
            before(a, b) && !#[trigger] before(b, c) implies !before(a, c) by {
            law_pane_order_is_an_ordering(a.pane_id, b.pane_id, c.pane_id);
        }
    }
    order::law_arranged_is_in_order(
        pane_agents(row_agents(rows, panes, workspace_id), panes, workspace_id),
        before,
    );
}

/// The value of a field is that of the first one with its name, and there is
/// none exactly where no field has it.
pub proof fn law_a_field_is_the_first_of_its_name(fields: Seq<(String, Json)>, key: Text)
    ensures
        match lookup(fields, key) {
            Some(value) => exists|k: int|
                0 <= k < fields.len() && (#[trigger] fields[k]).0@ == key && fields[k].1 == value
                    && forall|j: int| 0 <= j < k ==> (#[trigger] fields[j]).0@ != key,
            None => forall|k: int| 0 <= k < fields.len() ==> (#[trigger] fields[k]).0@ != key,
        },
    decreases fields.len(),
{
    if fields.len() > 0 && fields[0].0@ != key {
        let rest = fields.drop_first();
        law_a_field_is_the_first_of_its_name(rest, key);
        match lookup(rest, key) {
            Some(value) => {
                let k = choose|k: int|
                    0 <= k < rest.len() && (#[trigger] rest[k]).0@ == key && rest[k].1 == value
                        && forall|j: int| 0 <= j < k ==> (#[trigger] rest[j]).0@ != key;
                assert(fields[k + 1] == rest[k]);
                assert forall|j: int| 0 <= j < k + 1 implies (#[trigger] fields[j]).0@ != key by {
                    if j > 0 {
                        assert(rest[j - 1] == fields[j]);
                    }
                }
            },
            None => {
                assert forall|k: int| 0 <= k < fields.len() implies (#[trigger] fields[k]).0@
                    != key by {
                    if k > 0 {
                        assert(rest[k - 1] == fields[k]);
                    }
                }
            },
        }
    } else if fields.len() > 0 {
        assert(fields[0].1 == fields[0].1);
    }
}

/// A text is what a field of an object holds, without the white space around it;
/// a blank one is absent, and so is any that is no text.
pub proof fn law_a_blank_text_is_absent(value: Json, key: Text)
    ensures
        match text_field(value, key) {
            Some(text) => {
                &&& field(value, key) is Some && field(value, key)->0.body is Text
                &&& text == strings::trimmed(field(value, key)->0.body->Text_0@)
                &&& !strings::blank(field(value, key)->0.body->Text_0@)
            },
            None => field(value, key) is None || !(field(value, key)->0.body is Text)
                || strings::blank(field(value, key)->0.body->Text_0@),
        },
{
    if field(value, key) is Some && field(value, key)->0.body is Text {
        strings::law_trimming_takes_white_space_off_the_ends(
            field(value, key)->0.body->Text_0@,
        );
    }
}

/// The kernel's marker comes off the end of a path, and nothing else does.
pub proof fn law_the_deleted_marker_comes_off(path: Text)
    ensures
        path.len() > 0 ==> unmarked(path + " (deleted)"@) == path,
        !strings::ends(path, " (deleted)"@) ==> unmarked(path) == path,
{
    let marked = path + " (deleted)"@;
    strings::law_a_prefix_comes_off(" (deleted)"@, path, path);
    assert(marked.take(path.len() as int) =~= path);
}

/// Whether an agent is the one a row of its own tells of.
pub open spec fn told_by_row(agent: AgentRef<Text>, row: Json) -> bool {
    &&& agent.name == text_field(row, "name"@)
    &&& agent.program == text_field(row, "agent"@)
    &&& agent.status == text_field(row, "agent_status"@)
    &&& agent.session_id == session_text(row)
    &&& match text_field(row, "pane_id"@) {
        Some(id) => agent.pane_id == id,
        None => agent.pane_id.len() == 0,
    }
}

/// Whether an agent is the one a pane tells of.
pub open spec fn told_by_pane(agent: AgentRef<Text>, pane: Json) -> bool {
    &&& agent.name is None
    &&& agent.program is Some && agent.program == text_field(pane, "agent"@)
    &&& agent.status == text_field(pane, "agent_status"@)
    &&& agent.session_id == session_text(pane)
    &&& text_field(pane, "pane_id"@) == Some(agent.pane_id)
    &&& match text_field(pane, "cwd"@) {
        Some(cwd) => agent.cwd == Some(tidy(cwd)),
        None => agent.cwd is None,
    }
}

pub open spec fn told_by_rows(agent: AgentRef<Text>, rows: Seq<Json>, workspace_id: Text) -> bool {
    exists|k: int|
        0 <= k < rows.len() && text_field(#[trigger] rows[k], "workspace_id"@) == Some(
            workspace_id,
        ) && told_by_row(agent, rows[k])
}

pub open spec fn told_by_panes(
    agent: AgentRef<Text>,
    panes: Seq<Json>,
    workspace_id: Text,
) -> bool {
    exists|k: int|
        0 <= k < panes.len() && text_field(#[trigger] panes[k], "workspace_id"@) == Some(
            workspace_id,
        ) && told_by_pane(agent, panes[k])
}

proof fn lemma_rows_tell(rows: Seq<Json>, panes: Seq<Json>, workspace_id: Text)
    ensures
        forall|i: int|
            0 <= i < row_agents(rows, panes, workspace_id).len() ==> told_by_rows(
                #[trigger] row_agents(rows, panes, workspace_id)[i],
                rows,
                workspace_id,
            ),
        forall|k: int|
            0 <= k < rows.len() && text_field(#[trigger] rows[k], "workspace_id"@) == Some(
                workspace_id,
            ) ==> row_agents(rows, panes, workspace_id).contains(
                row_agent(rows[k], panes, workspace_id),
            ),
        row_agents(rows, panes, workspace_id).len() == rows.filter(
            |row: Json| text_field(row, "workspace_id"@) == Some(workspace_id),
        ).len(),
    decreases rows.len(),
{
    reveal(Seq::filter);
    if rows.len() > 0 {
        let rest = rows.drop_last();
        lemma_rows_tell(rest, panes, workspace_id);
        let before = row_agents(rest, panes, workspace_id);
        let all = row_agents(rows, panes, workspace_id);
        assert forall|i: int| 0 <= i < all.len() implies told_by_rows(
            #[trigger] all[i],
            rows,
            workspace_id,
        ) by {
            if i < before.len() {
                assert(told_by_rows(before[i], rest, workspace_id));
                let k = choose|k: int|
                    0 <= k < rest.len() && text_field(#[trigger] rest[k], "workspace_id"@) == Some(
                        workspace_id,
                    ) && told_by_row(before[i], rest[k]);
                assert(rows[k] == rest[k]);
            } else {
                assert(told_by_row(all[i], rows[rows.len() - 1]));
            }
        }
        assert forall|k: int|
            0 <= k < rows.len() && text_field(#[trigger] rows[k], "workspace_id"@) == Some(
                workspace_id,
            ) implies all.contains(row_agent(rows[k], panes, workspace_id)) by {
            if k < rest.len() {
                assert(rest[k] == rows[k]);
                let at = choose|at: int|
                    0 <= at < before.len() && before[at] == row_agent(rows[k], panes, workspace_id);
                assert(all[at] == before[at]);
            } else {
                assert(all[before.len() as int] == row_agent(rows[k], panes, workspace_id));
            }
        }
    }
}

proof fn lemma_panes_tell(start: Seq<AgentRef<Text>>, panes: Seq<Json>, workspace_id: Text)
    ensures
        start.is_prefix_of(pane_agents(start, panes, workspace_id)),
        forall|i: int|
            start.len() <= i < pane_agents(start, panes, workspace_id).len() ==> told_by_panes(
                #[trigger] pane_agents(start, panes, workspace_id)[i],
                panes,
                workspace_id,
            ),
        forall|i: int, j: int|
            start.len() <= i < pane_agents(start, panes, workspace_id).len() && 0 <= j < i
                ==> (#[trigger] pane_agents(start, panes, workspace_id)[i]).pane_id
                != (#[trigger] pane_agents(start, panes, workspace_id)[j]).pane_id,
        forall|k: int|
            0 <= k < panes.len() && text_field(#[trigger] panes[k], "workspace_id"@) == Some(
                workspace_id,
            ) && text_field(panes[k], "agent"@) is Some && text_field(panes[k], "pane_id"@) is Some
                ==> has_pane(
                pane_agents(start, panes, workspace_id),
                text_field(panes[k], "pane_id"@)->0,
            ),
    decreases panes.len(),
{
    let all = pane_agents(start, panes, workspace_id);
    if panes.len() > 0 {
        let rest = panes.drop_last();
        lemma_panes_tell(start, rest, workspace_id);
        let before = pane_agents(start, rest, workspace_id);
        assert forall|i: int| start.len() <= i < all.len() implies told_by_panes(
            #[trigger] all[i],
            panes,
            workspace_id,
        ) by {
            if i < before.len() {
                assert(told_by_panes(before[i], rest, workspace_id));
                let k = choose|k: int|
                    0 <= k < rest.len() && text_field(#[trigger] rest[k], "workspace_id"@) == Some(
                        workspace_id,
                    ) && told_by_pane(before[i], rest[k]);
                assert(panes[k] == rest[k]);
            } else {
                assert(told_by_pane(all[i], panes[panes.len() - 1]));
            }
        }
        assert forall|i: int, j: int| start.len() <= i < all.len() && 0 <= j < i implies (
        #[trigger] all[i]).pane_id != (#[trigger] all[j]).pane_id by {
            if i < before.len() {
                assert(before[i].pane_id != before[j].pane_id);
            } else {
                assert(before[j] == all[j]);
            }
        }
        assert forall|k: int|
            0 <= k < panes.len() && text_field(#[trigger] panes[k], "workspace_id"@) == Some(
                workspace_id,
            ) && text_field(panes[k], "agent"@) is Some && text_field(
                panes[k],
                "pane_id"@,
            ) is Some implies has_pane(all, text_field(panes[k], "pane_id"@)->0) by {
            let id = text_field(panes[k], "pane_id"@)->0;
            if k < rest.len() {
                assert(rest[k] == panes[k]);
            }
            if has_pane(before, id) {
                let at = choose|at: int|
                    0 <= at < before.len() && (#[trigger] before[at]).pane_id == id;
                assert(all[at].pane_id == id);
            } else {
                assert(all[before.len() as int].pane_id == id);
            }
        }
    }
}

proof fn lemma_arranged_agents(rows: Seq<Json>, panes: Seq<Json>, workspace_id: Text)
    ensures
        ({
            let loose = pane_agents(row_agents(rows, panes, workspace_id), panes, workspace_id);
            let agents = workspace_agents(rows, panes, workspace_id);
            &&& agents.len() == loose.len()
            &&& forall|agent: AgentRef<Text>| #[trigger] agents.contains(agent) <==> loose.contains(agent)
        }),
{
    broadcast use vstd::seq_lib::group_to_multiset_ensures;

    let loose = pane_agents(row_agents(rows, panes, workspace_id), panes, workspace_id);
    let before = |a: AgentRef<Text>, b: AgentRef<Text>| pane_before(a.pane_id, b.pane_id);
    order::law_arranged_keeps_items(loose, before);
    let agents = workspace_agents(rows, panes, workspace_id);
    assert forall|agent: AgentRef<Text>| #[trigger] agents.contains(agent) <==> loose.contains(
        agent,
    ) by {
        assert(agents.contains(agent) <==> agents.to_multiset().count(agent) > 0);
        assert(loose.contains(agent) <==> loose.to_multiset().count(agent) > 0);
    }
}

/// Every agent of a workspace is one that a row or a pane of that workspace tells
/// of: nobody is credited with a workspace they were not in.
pub proof fn law_an_agent_is_in_its_own_workspace(
    rows: Seq<Json>,
    panes: Seq<Json>,
    workspace_id: Text,
    i: int,
)
    requires
        0 <= i < workspace_agents(rows, panes, workspace_id).len(),
    ensures
        ({
            let agent = workspace_agents(rows, panes, workspace_id)[i];
            told_by_rows(agent, rows, workspace_id) || told_by_panes(agent, panes, workspace_id)
        }),
{
    let start = row_agents(rows, panes, workspace_id);
    let loose = pane_agents(start, panes, workspace_id);
    let agent = workspace_agents(rows, panes, workspace_id)[i];
    lemma_rows_tell(rows, panes, workspace_id);
    lemma_panes_tell(start, panes, workspace_id);
    lemma_arranged_agents(rows, panes, workspace_id);
    assert(workspace_agents(rows, panes, workspace_id).contains(agent));
    let k = choose|k: int| 0 <= k < loose.len() && loose[k] == agent;
    if k < start.len() {
        assert(start[k] == loose[k]);
    }
}

/// No agent is left out: every row of the workspace gives one, as the row tells
/// it, and every pane that runs one has one.
pub proof fn law_every_agent_of_a_workspace_is_there(
    rows: Seq<Json>,
    panes: Seq<Json>,
    workspace_id: Text,
    k: int,
)
    ensures
        0 <= k < rows.len() && text_field(rows[k], "workspace_id"@) == Some(workspace_id)
            ==> exists|i: int|
            0 <= i < workspace_agents(rows, panes, workspace_id).len() && told_by_row(
                #[trigger] workspace_agents(rows, panes, workspace_id)[i],
                rows[k],
            ),
        0 <= k < panes.len() && text_field(panes[k], "workspace_id"@) == Some(workspace_id)
            && text_field(panes[k], "agent"@) is Some && text_field(panes[k], "pane_id"@) is Some
            ==> exists|i: int|
            0 <= i < workspace_agents(rows, panes, workspace_id).len()
                && text_field(panes[k], "pane_id"@) == Some(
                (#[trigger] workspace_agents(rows, panes, workspace_id)[i]).pane_id,
            ),
        workspace_agents(rows, panes, workspace_id).len() >= rows.filter(
            |row: Json| text_field(row, "workspace_id"@) == Some(workspace_id),
        ).len(),
{
    let start = row_agents(rows, panes, workspace_id);
    let loose = pane_agents(start, panes, workspace_id);
    let agents = workspace_agents(rows, panes, workspace_id);
    lemma_rows_tell(rows, panes, workspace_id);
    lemma_panes_tell(start, panes, workspace_id);
    lemma_arranged_agents(rows, panes, workspace_id);
    if 0 <= k < rows.len() && text_field(rows[k], "workspace_id"@) == Some(workspace_id) {
        let agent = row_agent(rows[k], panes, workspace_id);
        let at = choose|at: int| 0 <= at < start.len() && start[at] == agent;
        assert(loose[at] == agent);
        assert(loose.contains(agent));
        assert(agents.contains(agent));
        let i = choose|i: int| 0 <= i < agents.len() && agents[i] == agent;
        assert(told_by_row(agents[i], rows[k]));
    }
    if 0 <= k < panes.len() && text_field(panes[k], "workspace_id"@) == Some(workspace_id)
        && text_field(panes[k], "agent"@) is Some && text_field(panes[k], "pane_id"@) is Some {
        let id = text_field(panes[k], "pane_id"@)->0;
        assert(has_pane(loose, id));
        let at = choose|at: int| 0 <= at < loose.len() && (#[trigger] loose[at]).pane_id == id;
        assert(loose.contains(loose[at]));
        assert(agents.contains(loose[at]));
        let i = choose|i: int| 0 <= i < agents.len() && agents[i] == loose[at];
        assert(agents[i].pane_id == id);
    }
}

/// A pane adds an agent only where none with its id is there, whether a row or a
/// pane told of it; a pane of another workspace, or without an agent, adds none.
pub proof fn law_a_pane_adds_an_agent_once(
    start: Seq<AgentRef<Text>>,
    panes: Seq<Json>,
    pane: Json,
    workspace_id: Text,
)
    ensures
        ({
            let before = pane_agents(start, panes, workspace_id);
            let after = pane_agents(start, panes.push(pane), workspace_id);
            let new = text_field(pane, "workspace_id"@) == Some(workspace_id) && text_field(
                pane,
                "agent"@,
            ) is Some && text_field(pane, "pane_id"@) is Some && forall|i: int|
                0 <= i < before.len() ==> Some((#[trigger] before[i]).pane_id) != text_field(
                    pane,
                    "pane_id"@,
                );
            if new {
                after.len() == before.len() + 1 && after.drop_last() == before && told_by_pane(
                    after.last(),
                    pane,
                )
            } else {
                after == before
            }
        }),
{
    assert(panes.push(pane).drop_last() =~= panes);
    let before = pane_agents(start, panes, workspace_id);
    let after = pane_agents(start, panes.push(pane), workspace_id);
    if after.len() > before.len() {
        assert(after.drop_last() =~= before);
    }
}

proof fn lemma_rows_together(a: Seq<Json>, b: Seq<Json>, panes: Seq<Json>, workspace_id: Text)
    ensures
        row_agents(a + b, panes, workspace_id) == row_agents(a, panes, workspace_id) + row_agents(
            b,
            panes,
            workspace_id,
        ),
    decreases b.len(),
{
    if b.len() == 0 {
        assert(a + b =~= a);
        assert(row_agents(a, panes, workspace_id) + row_agents(b, panes, workspace_id)
            =~= row_agents(a, panes, workspace_id));
    } else {
        lemma_rows_together(a, b.drop_last(), panes, workspace_id);
        assert((a + b).drop_last() =~= a + b.drop_last());
        assert(row_agents(a + b, panes, workspace_id) =~= row_agents(a, panes, workspace_id)
            + row_agents(b, panes, workspace_id));
    }
}

/// A row of another workspace changes nothing about the agents of this one,
/// wherever it stands.
pub proof fn law_another_workspaces_row_adds_nothing(
    a: Seq<Json>,
    row: Json,
    b: Seq<Json>,
    panes: Seq<Json>,
    workspace_id: Text,
)
    requires
        text_field(row, "workspace_id"@) != Some(workspace_id),
    ensures
        workspace_agents(a.push(row) + b, panes, workspace_id) == workspace_agents(
            a + b,
            panes,
            workspace_id,
        ),
{
    lemma_rows_together(a.push(row), b, panes, workspace_id);
    lemma_rows_together(a, b, panes, workspace_id);
    assert(a.push(row).drop_last() =~= a);
}

/// An agent sat where its row says, and failing that where its pane does; a row
/// that says nothing and has no pane of its workspace leaves the place unknown.
pub proof fn law_an_agent_sat_where_it_is_reported(row: Json, panes: Seq<Json>, workspace_id: Text)
    ensures
        ({
            let agent = row_agent(row, panes, workspace_id);
            match text_field(row, "cwd"@) {
                Some(cwd) => agent.cwd == Some(tidy(cwd)),
                None => agent.cwd is Some ==> exists|k: int|
                    0 <= k < panes.len() && text_field(#[trigger] panes[k], "workspace_id"@)
                        == Some(workspace_id) && text_field(panes[k], "pane_id"@) is Some
                        && text_field(panes[k], "pane_id"@) == text_field(row, "pane_id"@)
                        && text_field(panes[k], "cwd"@) is Some && agent.cwd == Some(
                        tidy(text_field(panes[k], "cwd"@)->0),
                    ),
            }
        }),
{
    if text_field(row, "cwd"@) is None && text_field(row, "pane_id"@) is Some {
        lemma_pane_cwd(panes, workspace_id, text_field(row, "pane_id"@)->0);
    }
}

proof fn lemma_pane_cwd(panes: Seq<Json>, workspace_id: Text, pane_id: Text)
    ensures
        match pane_cwd(panes, workspace_id, pane_id) {
            Some(cwd) => exists|k: int|
                0 <= k < panes.len() && text_field(#[trigger] panes[k], "workspace_id"@) == Some(
                    workspace_id,
                ) && text_field(panes[k], "pane_id"@) == Some(pane_id) && text_field(
                    panes[k],
                    "cwd"@,
                ) is Some && cwd == tidy(text_field(panes[k], "cwd"@)->0),
            None => true,
        },
    decreases panes.len(),
{
    if panes.len() > 0 {
        let rest = panes.drop_first();
        lemma_pane_cwd(rest, workspace_id, pane_id);
        if in_workspace(panes[0], workspace_id) && text_field(panes[0], "pane_id"@) == Some(
            pane_id,
        ) {
            assert(text_field(panes[0], "workspace_id"@) == Some(workspace_id));
        } else if pane_cwd(rest, workspace_id, pane_id) is Some {
            let cwd = pane_cwd(rest, workspace_id, pane_id)->0;
            let k = choose|k: int|
                0 <= k < rest.len() && text_field(#[trigger] rest[k], "workspace_id"@) == Some(
                    workspace_id,
                ) && text_field(rest[k], "pane_id"@) == Some(pane_id) && text_field(
                    rest[k],
                    "cwd"@,
                ) is Some && cwd == tidy(text_field(rest[k], "cwd"@)->0);
            assert(panes[k + 1] == rest[k]);
        }
    }
}

/// An agent whose row says nothing of a directory sat where its pane does, where
/// that pane is the only one of the workspace with its id.
pub proof fn law_a_pane_lends_its_directory(
    row: Json,
    a: Seq<Json>,
    pane: Json,
    b: Seq<Json>,
    workspace_id: Text,
)
    requires
        text_field(row, "cwd"@) is None,
        text_field(row, "pane_id"@) is Some,
        text_field(pane, "pane_id"@) == text_field(row, "pane_id"@),
        text_field(pane, "workspace_id"@) == Some(workspace_id),
        forall|k: int|
            0 <= k < a.len() ==> text_field(#[trigger] a[k], "pane_id"@) != text_field(
                row,
                "pane_id"@,
            ),
    ensures
        row_agent(row, a.push(pane) + b, workspace_id).cwd == match text_field(pane, "cwd"@) {
            Some(cwd) => Some(tidy(cwd)),
            None => None,
        },
    decreases a.len(),
{
    let all = a.push(pane) + b;
    if a.len() > 0 {
        let rest = a.drop_first();
        assert(all.drop_first() =~= rest.push(pane) + b);
        assert(all[0] == a[0]);
        assert forall|k: int| 0 <= k < rest.len() implies text_field(
            #[trigger] rest[k],
            "pane_id"@,
        ) != text_field(row, "pane_id"@) by {
            assert(rest[k] == a[k + 1]);
        }
        law_a_pane_lends_its_directory(row, rest, pane, b, workspace_id);
    } else {
        assert(all[0] == pane);
    }
}

/// Every directory of a workspace is the checkout it is recorded under, the
/// directory the plugin was invoked from, or that of a pane of this workspace
/// which is not the plugin's own.
pub proof fn law_a_directory_belongs_to_its_workspace(
    workspace_id: Text,
    workspace: Json,
    panes: Seq<Json>,
    scope: RepositoryScope<Text>,
    i: int,
)
    requires
        0 <= i < workspace_paths(workspace_id, workspace, panes, scope).len(),
    ensures
        ({
            let path = workspace_paths(workspace_id, workspace, panes, scope)[i];
            ||| tracked_checkout(workspace) is Some && path == tidy(tracked_checkout(workspace)->0)
            ||| tracked_checkout(workspace) is None && scope.workspace_id == Some(workspace_id)
                && scope.invocation_cwd is Some && path == tidy(scope.invocation_cwd->0)
            ||| exists|k: int|
                0 <= k < panes.len() && text_field(#[trigger] panes[k], "workspace_id"@) == Some(
                    workspace_id,
                ) && text_field(panes[k], "cwd"@) is Some && path == tidy(
                    text_field(panes[k], "cwd"@)->0,
                ) && !(scope.plugin_root is Some && paths::inside(path, scope.plugin_root->0))
        }),
    decreases panes.len(),
{
    let path = workspace_paths(workspace_id, workspace, panes, scope)[i];
    if panes.len() > 0 {
        let rest = panes.drop_last();
        let before = workspace_paths(workspace_id, workspace, rest, scope);
        if i < before.len() {
            assert(before[i] == path);
            law_a_directory_belongs_to_its_workspace(workspace_id, workspace, rest, scope, i);
            if exists|k: int|
                0 <= k < rest.len() && text_field(#[trigger] rest[k], "workspace_id"@) == Some(
                    workspace_id,
                ) && text_field(rest[k], "cwd"@) is Some && path == tidy(
                    text_field(rest[k], "cwd"@)->0,
                ) && !(scope.plugin_root is Some && paths::inside(path, scope.plugin_root->0)) {
                let k = choose|k: int|
                    0 <= k < rest.len() && text_field(#[trigger] rest[k], "workspace_id"@) == Some(
                        workspace_id,
                    ) && text_field(rest[k], "cwd"@) is Some && path == tidy(
                        text_field(rest[k], "cwd"@)->0,
                    ) && !(scope.plugin_root is Some && paths::inside(path, scope.plugin_root->0));
                assert(panes[k] == rest[k]);
            }
        } else {
            assert(text_field(panes[panes.len() - 1], "workspace_id"@) == Some(workspace_id));
        }
    }
}

/// The workspaces of a session are those that have an id and a directory, in
/// their order, each with its own directories and agents; the label stands in
/// for nothing but itself, and the id for a label that is missing.
pub proof fn law_each_workspace_is_reported_as_it_is(
    workspaces: Seq<Json>,
    panes: Seq<Json>,
    rows: Seq<Json>,
    scope: RepositoryScope<Text>,
    last: Json,
)
    ensures
        ({
            let before = workspace_refs(workspaces, panes, rows, scope);
            let after = workspace_refs(workspaces.push(last), panes, rows, scope);
            match text_field(last, "workspace_id"@) {
                None => after == before,
                Some(id) => {
                    let places = workspace_paths(id, last, panes, scope);
                    if places.len() == 0 {
                        after == before
                    } else {
                        let new = after.last();
                        &&& after.len() == before.len() + 1
                        &&& after.drop_last() == before
                        &&& new.workspace_id == id
                        &&& new.paths == places
                        &&& new.agents == workspace_agents(rows, panes, id)
                        &&& new.agent_status == text_field(last, "agent_status"@)
                        &&& match text_field(last, "label"@) {
                            Some(label) => new.label == label,
                            None => new.label == id,
                        }
                    }
                },
            }
        }),
{
    assert(workspaces.push(last).drop_last() =~= workspaces);
    let before = workspace_refs(workspaces, panes, rows, scope);
    let after = workspace_refs(workspaces.push(last), panes, rows, scope);
    if after.len() > before.len() {
        assert(after.drop_last() =~= before);
    }
}

/// A snapshot that is whole is reduced, from its own three lists: the workspaces,
/// the panes and the agents.
pub proof fn law_a_whole_snapshot_is_reduced(result: Json, scope: RepositoryScope<Text>)
    requires
        field(result, "type"@) is Some,
        field(result, "type"@)->0.body is Text,
        field(result, "type"@)->0.body->Text_0@ == "session_snapshot"@,
        field(result, "snapshot"@) is Some,
        field(result, "snapshot"@)->0.body is Object,
        ({
            let snapshot = field(result, "snapshot"@)->0;
            &&& field(snapshot, "workspaces"@) is Some
            &&& field(snapshot, "workspaces"@)->0.body is List
            &&& field(snapshot, "panes"@) is Some && field(snapshot, "panes"@)->0.body is List
            &&& field(snapshot, "agents"@) is Some && field(snapshot, "agents"@)->0.body is List
        }),
    ensures
        ({
            let snapshot = field(result, "snapshot"@)->0;
            reduced(result, scope) == Ok::<Seq<model::WorkspaceView>, Text>(
                workspace_refs(
                    field(snapshot, "workspaces"@)->0.body->List_0@,
                    field(snapshot, "panes"@)->0.body->List_0@,
                    field(snapshot, "agents"@)->0.body->List_0@,
                    scope,
                ),
            )
        }),
{
}

proof fn lemma_all_front_digits(s: Text)
    requires
        forall|i: int| 0 <= i < s.len() ==> strings::digit(#[trigger] s[i]),
    ensures
        front_digits(s) == s,
    decreases s.len(),
{
    if s.len() > 0 {
        let rest = s.drop_first();
        assert(forall|i: int| 0 <= i < rest.len() ==> #[trigger] rest[i] == s[i + 1]);
        lemma_all_front_digits(rest);
        assert(seq![s[0]] + rest =~= s);
    } else {
        assert(s =~= Seq::empty());
    }
}

proof fn lemma_digits_end_inside(start: Text, rest: Text)
    requires
        start.len() > 0,
        !strings::digit(start.last()),
    ensures
        front_digits(start + rest) == front_digits(start),
        front_digits(start).len() < start.len(),
    decreases start.len(),
{
    let whole = start + rest;
    assert(whole[0] == start[0]);
    if strings::digit(start[0]) {
        let less = start.drop_first();
        assert(start[0] != start.last());
        assert(less.last() == start.last());
        lemma_digits_end_inside(less, rest);
        assert(whole.drop_first() =~= less + rest);
    }
}

proof fn lemma_tokens_come_apart(start: Text, rest: Text)
    requires
        start.len() > 0 ==> !strings::digit(start.last()),
    ensures
        tokens(start + rest) == tokens(start) + tokens(rest),
    decreases start.len(),
{
    let whole = start + rest;
    if start.len() == 0 {
        assert(whole =~= rest);
        assert(tokens(start) + tokens(rest) =~= tokens(rest));
    } else if strings::digit(start[0]) {
        lemma_digits_end_inside(start, rest);
        lemma_front_digits(start);
        let run = front_digits(start);
        let less = start.skip(run.len() as int);
        assert(whole[0] == start[0]);
        assert(whole.skip(run.len() as int) =~= less + rest);
        assert(less.last() == start.last());
        lemma_tokens_come_apart(less, rest);
        let one = seq![Token::Number(without_zeros(run))];
        assert(one + (tokens(less) + tokens(rest)) =~= (one + tokens(less)) + tokens(rest));
    } else {
        let less = start.drop_first();
        assert(whole[0] == start[0]);
        assert(whole.drop_first() =~= less + rest);
        if less.len() > 0 {
            assert(less.last() == start.last());
        }
        lemma_tokens_come_apart(less, rest);
        let one = seq![Token::Char(start[0] as int)];
        assert(one + (tokens(less) + tokens(rest)) =~= (one + tokens(less)) + tokens(rest));
    }
}

/// The digits of a number that stand for something.
pub open spec fn significant_digits(n: nat) -> Text {
    if n == 0 {
        Seq::empty()
    } else {
        strings::decimal(n)
    }
}

proof fn lemma_first_digit(n: nat)
    requires
        n > 0,
    ensures
        strings::decimal(n)[0] != '0',
    decreases n,
{
    strings::lemma_decimal_digits(n);
    if n >= 10 {
        strings::lemma_decimal_digits(n / 10);
        lemma_first_digit(n / 10);
        assert(strings::decimal(n)[0] == strings::decimal(n / 10)[0]);
    }
}

proof fn lemma_number_is_a_token(n: nat)
    ensures
        tokens(strings::decimal(n)) == seq![Token::Number(significant_digits(n))],
{
    let s = strings::decimal(n);
    strings::lemma_decimal_digits(n);
    lemma_all_front_digits(s);
    assert(s.skip(s.len() as int) =~= Seq::empty());
    assert(tokens(s.skip(s.len() as int)) =~= Seq::empty());
    assert(strings::digit(s[0]));
    if n == 0 {
        assert(s =~= seq!['0']);
        assert(s.drop_first() =~= Seq::empty());
        assert(without_zeros(s.drop_first()) =~= Seq::empty());
    } else {
        lemma_first_digit(n);
    }
    assert(without_zeros(s) == significant_digits(n));
    assert(tokens(s) =~= seq![Token::Number(significant_digits(n))]);
}

proof fn lemma_precedes_goes_on(p: Text, q: Text, x: char, y: char)
    requires
        p.len() == q.len(),
        strings::precedes(p, q),
    ensures
        strings::precedes(p.push(x), q.push(y)),
    decreases p.len(),
{
    let (a, b) = (p.push(x), q.push(y));
    assert(a[0] == p[0] && b[0] == q[0]);
    if p[0] == q[0] {
        lemma_precedes_goes_on(p.drop_first(), q.drop_first(), x, y);
        assert(a.drop_first() =~= p.drop_first().push(x));
        assert(b.drop_first() =~= q.drop_first().push(y));
    }
}

proof fn lemma_smaller_number_first(n: nat, m: nat)
    requires
        0 < n < m,
    ensures
        ({
            let (x, y) = (strings::decimal(n), strings::decimal(m));
            x.len() < y.len() || x.len() == y.len() && strings::precedes(x, y)
        }),
    decreases m,
{
    strings::lemma_decimal_digits(n);
    strings::lemma_decimal_digits(m);
    let (x, y) = (strings::decimal(n), strings::decimal(m));
    if m < 10 {
        let none: Text = Seq::empty();
        strings::law_the_first_difference_decides(none, x[0], y[0], none, none);
        assert(none + seq![x[0]] + none =~= x);
        assert(none + seq![y[0]] + none =~= y);
    } else if n < 10 {
        strings::lemma_decimal_digits(m / 10);
    } else {
        let (p, q) = (strings::decimal(n / 10), strings::decimal(m / 10));
        let (c, d) = (x.last(), y.last());
        assert(x =~= p.push(c));
        assert(y =~= q.push(d));
        if n / 10 < m / 10 {
            lemma_smaller_number_first(n / 10, m / 10);
            if p.len() == q.len() {
                lemma_precedes_goes_on(p, q, c, d);
            }
        } else {
            assert(n / 10 == m / 10);
            assert(n % 10 < m % 10);
            let none: Text = Seq::empty();
            strings::law_the_first_difference_decides(p, c, d, none, none);
            assert(p + seq![c] + none =~= x);
            assert(p + seq![d] + none =~= y);
        }
    }
}

proof fn lemma_last_token_decides(same: Seq<Token>, a: Token, b: Token)
    requires
        a != b,
    ensures
        list_before(same.push(a), same.push(b)) == token_before(a, b),
    decreases same.len(),
{
    let (x, y) = (same.push(a), same.push(b));
    if same.len() > 0 {
        lemma_last_token_decides(same.drop_first(), a, b);
        assert(x.drop_first() =~= same.drop_first().push(a));
        assert(y.drop_first() =~= same.drop_first().push(b));
        assert(x[0] == same[0] && y[0] == same[0]);
    }
}

/// Panes that differ in a number only come in the order of that number, not of
/// its digits: the tenth pane comes behind the second.
pub proof fn law_panes_come_in_the_order_of_their_numbers(start: Text, n: nat, m: nat)
    requires
        start.len() > 0 ==> !strings::digit(start.last()),
    ensures
        pane_before(start + strings::decimal(n), start + strings::decimal(m)) <==> n < m,
{
    let (a, b) = (start + strings::decimal(n), start + strings::decimal(m));
    lemma_tokens_come_apart(start, strings::decimal(n));
    lemma_tokens_come_apart(start, strings::decimal(m));
    lemma_number_is_a_token(n);
    lemma_number_is_a_token(m);
    let (s, t) = (Token::Number(significant_digits(n)), Token::Number(significant_digits(m)));
    let same = tokens(start);
    assert(same + seq![s] =~= same.push(s));
    assert(same + seq![t] =~= same.push(t));
    law_pane_order_is_an_ordering(a, b, a);
    strings::lemma_decimal_digits(n);
    strings::lemma_decimal_digits(m);
    if n < m {
        if n > 0 {
            lemma_smaller_number_first(n, m);
        }
        assert(token_before(s, t));
        assert(s != t) by {
            if significant_digits(n) == significant_digits(m) {
                strings::law_precedes_is_a_strict_total_order(
                    significant_digits(n),
                    significant_digits(n),
                    significant_digits(n),
                );
            }
        }
        lemma_last_token_decides(same, s, t);
    } else if m < n {
        if m > 0 {
            lemma_smaller_number_first(m, n);
        }
        assert(token_before(t, s));
        assert(s != t) by {
            if significant_digits(n) == significant_digits(m) {
                strings::law_precedes_is_a_strict_total_order(
                    significant_digits(n),
                    significant_digits(n),
                    significant_digits(n),
                );
            }
        }
        lemma_last_token_decides(same, t, s);
    }
}

} // verus!
