//! Text as sequences of characters.
//!
//! Every contract in this library speaks of a string through its view, the
//! sequence of its characters. This module holds what the rest is built from:
//! reading a string apart, putting one together, and the numbers inside it.

use vstd::prelude::*;

verus! {

// ---------------------------------------------------------------------------
// Views of lists
// ---------------------------------------------------------------------------

/// The views of the items of a list, in order.
pub open spec fn views<T: View>(items: Seq<T>) -> Seq<T::V> {
    Seq::new(items.len(), |i: int| items[i]@)
}

pub broadcast proof fn lemma_views_push<T: View>(items: Seq<T>, last: T)
    ensures
        #[trigger] views(items.push(last)) == views(items).push(last@),
{
    assert(views(items.push(last)) =~= views(items).push(last@));
}

pub broadcast proof fn lemma_views_add<T: View>(left: Seq<T>, right: Seq<T>)
    ensures
        #[trigger] views(left + right) == views(left) + views(right),
{
    assert(views(left + right) =~= views(left) + views(right));
}

pub broadcast proof fn lemma_views_take<T: View>(items: Seq<T>, n: int)
    requires
        0 <= n <= items.len(),
    ensures
        #[trigger] views(items.take(n)) == views(items).take(n),
{
    assert(views(items.take(n)) =~= views(items).take(n));
}

pub broadcast proof fn lemma_views_empty<T: View>()
    ensures
        #[trigger] views(Seq::<T>::empty()) == Seq::<T::V>::empty(),
{
    assert(views(Seq::<T>::empty()) =~= Seq::<T::V>::empty());
}

/// A prefix of a list grows by the item after it.
pub broadcast proof fn lemma_take_next<T>(items: Seq<T>, n: int)
    requires
        0 <= n < items.len(),
    ensures
        #![trigger items.take(n), items[n]]
        items.take(n + 1) == items.take(n).push(items[n]),
        items.take(n + 1).drop_last() == items.take(n),
        items.take(n + 1).last() == items[n],
        items.take(n + 1).len() == n + 1,
{
    assert(items.take(n + 1) =~= items.take(n).push(items[n]));
    assert(items.take(n + 1).drop_last() =~= items.take(n));
}

pub broadcast proof fn lemma_take_all<T>(items: Seq<T>)
    ensures
        #[trigger] items.take(items.len() as int) == items,
{
    assert(items.take(items.len() as int) =~= items);
}

pub broadcast proof fn lemma_take_none<T>(items: Seq<T>)
    ensures
        #[trigger] items.take(0) == Seq::<T>::empty(),
{
    assert(items.take(0) =~= Seq::<T>::empty());
}

pub broadcast group group_lists {
    lemma_views_push,
    lemma_views_add,
    lemma_views_take,
    lemma_views_empty,
    lemma_take_next,
    lemma_take_all,
    lemma_take_none,
}

/// The view of what an option holds.
pub open spec fn view_of<T: View>(value: Option<T>) -> Option<T::V> {
    match value {
        Some(held) => Some(held@),
        None => None,
    }
}

/// A copy of an option whose content copies without change of view.
pub fn clone_option<T: View + Clone>(value: &Option<T>) -> (out: Option<T>)
    requires
        forall|a: &T, b: T| #[trigger] call_ensures(T::clone, (a,), b) ==> b@ == a@,
    ensures
        view_of(out) == view_of(*value),
{
    match value {
        Some(held) => Some(held.clone()),
        None => None,
    }
}

/// A copy of a list whose items copy without change of view.
pub fn clone_list<T: View + Clone>(items: &Vec<T>) -> (out: Vec<T>)
    requires
        forall|a: &T, b: T| #[trigger] call_ensures(T::clone, (a,), b) ==> b@ == a@,
    ensures
        views(out@) == views(items@),
{
    broadcast use group_lists;

    let mut out: Vec<T> = Vec::new();
    for i in 0..items.len()
        invariant
            forall|a: &T, b: T| #[trigger] call_ensures(T::clone, (a,), b) ==> b@ == a@,
            views(out@) == views(items@.take(i as int)),
    {
        broadcast use group_lists;

        out.push(items[i].clone());
    }
    out
}

// ---------------------------------------------------------------------------
// Putting strings together
// ---------------------------------------------------------------------------

/// `String::push` appends one character to the end of the string.
pub assume_specification[ String::push ](s: &mut String, ch: char)
    ensures
        final(s)@ == old(s)@.push(ch),
;

/// The characters of a string, in order.
pub fn chars_of(text: &str) -> (out: Vec<char>)
    ensures
        out@ == text@,
{
    let mut out: Vec<char> = Vec::new();
    for ch in it: text.chars()
        invariant
            out@ == text@.take(it.index() as int),
            it.seq() == text@,
    {
        out.push(ch);
    }
    out
}

/// The string made of these characters.
pub fn string_of(chars: &[char]) -> (out: String)
    ensures
        out@ == chars@,
{
    let mut out = String::new();
    for i in 0..chars.len()
        invariant
            out@ == chars@.take(i as int),
    {
        out.push(chars[i]);
    }
    out
}

pub fn cat2(a: &str, b: &str) -> (out: String)
    ensures
        out@ == a@ + b@,
{
    let mut out = a.to_string();
    out.append(b);
    out
}

pub fn cat3(a: &str, b: &str, c: &str) -> (out: String)
    ensures
        out@ == a@ + b@ + c@,
{
    let mut out = cat2(a, b);
    out.append(c);
    out
}

pub fn cat4(a: &str, b: &str, c: &str, d: &str) -> (out: String)
    ensures
        out@ == a@ + b@ + c@ + d@,
{
    let mut out = cat3(a, b, c);
    out.append(d);
    out
}

pub fn cat5(a: &str, b: &str, c: &str, d: &str, e: &str) -> (out: String)
    ensures
        out@ == a@ + b@ + c@ + d@ + e@,
{
    let mut out = cat4(a, b, c, d);
    out.append(e);
    out
}

/// A character written `count` times.
pub open spec fn repeated(ch: char, count: nat) -> Seq<char> {
    Seq::new(count, |i: int| ch)
}

pub fn repeat(ch: char, count: usize) -> (out: String)
    ensures
        out@ == repeated(ch, count as nat),
{
    let mut out = String::new();
    for i in 0..count
        invariant
            out@ == repeated(ch, i as nat),
    {
        out.push(ch);
        assert(out@ =~= repeated(ch, (i + 1) as nat));
    }
    out
}

/// The parts in order, with `separator` between each two.
pub open spec fn joined(parts: Seq<Seq<char>>, separator: Seq<char>) -> Seq<char>
    decreases parts.len(),
{
    if parts.len() == 0 {
        Seq::empty()
    } else if parts.len() == 1 {
        parts[0]
    } else {
        joined(parts.drop_last(), separator) + separator + parts.last()
    }
}

pub fn join(parts: &Vec<String>, separator: &str) -> (out: String)
    ensures
        out@ == joined(views(parts@), separator@),
{
    broadcast use group_lists;

    let mut out = String::new();
    for i in 0..parts.len()
        invariant
            out@ == joined(views(parts@.take(i as int)), separator@),
    {
        broadcast use group_lists;

        let ghost before = out@;
        if i > 0 {
            out.append(separator);
        }
        out.append(parts[i].as_str());
        proof {
            let seen = views(parts@).take(i + 1);
            assert(seen.drop_last() =~= views(parts@).take(i as int));
            if i == 0 {
                assert(before + parts[0]@ =~= parts[0]@);
            }
        }
    }
    out
}

// ---------------------------------------------------------------------------
// Cutting to a budget
// ---------------------------------------------------------------------------

/// The longest prefix whose characters together cost no more than `budget`.
pub open spec fn front(s: Seq<char>, budget: nat, cost: spec_fn(char) -> nat) -> Seq<char>
    decreases s.len(),
{
    if s.len() == 0 || cost(s[0]) > budget {
        Seq::empty()
    } else {
        seq![s[0]] + front(s.drop_first(), (budget - cost(s[0])) as nat, cost)
    }
}

/// The longest suffix whose characters together cost no more than `budget`.
pub open spec fn back(s: Seq<char>, budget: nat, cost: spec_fn(char) -> nat) -> Seq<char>
    decreases s.len(),
{
    if s.len() == 0 || cost(s.last()) > budget {
        Seq::empty()
    } else {
        back(s.drop_last(), (budget - cost(s.last())) as nat, cost).push(s.last())
    }
}

pub fn take_front<F: Fn(char) -> usize>(
    s: &str,
    budget: usize,
    measure: F,
    Ghost(cost): Ghost<spec_fn(char) -> nat>,
) -> (out: String)
    requires
        forall|c: char| #[trigger] measure.requires((c,)),
        forall|c: char, n: usize| #[trigger] measure.ensures((c,), n) ==> n == cost(c),
    ensures
        out@ == front(s@, budget as nat, cost),
{
    let chars = chars_of(s);
    let mut out = String::new();
    let mut left: usize = budget;
    let mut i: usize = 0;
    assert(s@.skip(0) =~= s@);
    while i < chars.len()
        invariant
            forall|c: char| #[trigger] measure.requires((c,)),
            forall|c: char, n: usize| #[trigger] measure.ensures((c,), n) ==> n == cost(c),
            chars@ == s@,
            i <= s@.len(),
            front(s@, budget as nat, cost) == out@ + front(s@.skip(i as int), left as nat, cost),
        decreases s@.len() - i,
    {
        let ghost rest = s@.skip(i as int);
        let ghost before = out@;
        let columns = measure(chars[i]);
        if columns > left {
            assert(before + Seq::<char>::empty() =~= before);
            return out;
        }
        out.push(chars[i]);
        left = left - columns;
        i = i + 1;
        proof {
            assert(rest.drop_first() =~= s@.skip(i as int));
            assert(before + (seq![rest[0]] + front(s@.skip(i as int), left as nat, cost)) =~= out@
                + front(s@.skip(i as int), left as nat, cost));
        }
    }
    assert(out@ + Seq::<char>::empty() =~= out@);
    out
}

pub fn take_back<F: Fn(char) -> usize>(
    s: &str,
    budget: usize,
    measure: F,
    Ghost(cost): Ghost<spec_fn(char) -> nat>,
) -> (out: String)
    requires
        forall|c: char| #[trigger] measure.requires((c,)),
        forall|c: char, n: usize| #[trigger] measure.ensures((c,), n) ==> n == cost(c),
    ensures
        out@ == back(s@, budget as nat, cost),
{
    let chars = chars_of(s);
    let mut left: usize = budget;
    let mut from: usize = chars.len();
    assert(s@.take(s@.len() as int) =~= s@);
    assert(back(s@, budget as nat, cost) + s@.skip(s@.len() as int) =~= back(
        s@,
        budget as nat,
        cost,
    ));
    while from > 0
        invariant
            forall|c: char| #[trigger] measure.requires((c,)),
            forall|c: char, n: usize| #[trigger] measure.ensures((c,), n) ==> n == cost(c),
            chars@ == s@,
            from <= s@.len(),
            back(s@, budget as nat, cost) == back(s@.take(from as int), left as nat, cost)
                + s@.skip(from as int),
        decreases from,
    {
        let ghost rest = s@.take(from as int);
        let columns = measure(chars[from - 1]);
        if columns > left {
            assert(Seq::<char>::empty() + s@.skip(from as int) =~= s@.skip(from as int));
            return string_of(vstd::slice::slice_subrange(chars.as_slice(), from, chars.len()));
        }
        left = left - columns;
        from = from - 1;
        proof {
            assert(rest.drop_last() =~= s@.take(from as int));
            assert(back(s@.take(from as int), left as nat, cost).push(rest.last()) + s@.skip(
                from + 1,
            ) =~= back(s@.take(from as int), left as nat, cost) + s@.skip(from as int));
        }
    }
    assert(Seq::<char>::empty() + s@.skip(0) =~= s@);
    s.to_string()
}

/// How many bytes a character takes in UTF-8.
pub open spec fn utf8_bytes(c: char) -> nat {
    if (c as u32) < 0x80 {
        1
    } else if (c as u32) < 0x800 {
        2
    } else if (c as u32) < 0x10000 {
        3
    } else {
        4
    }
}

pub fn utf8_size(c: char) -> (n: usize)
    ensures
        n == utf8_bytes(c),
{
    let code: u32 = c as u32;
    if code < 0x80 {
        1
    } else if code < 0x800 {
        2
    } else if code < 0x10000 {
        3
    } else {
        4
    }
}

/// The first `bytes` bytes of a text, or as much of it as ends on a character.
pub open spec fn leading(s: Seq<char>, bytes: nat) -> Seq<char> {
    front(s, bytes, |c: char| utf8_bytes(c))
}

pub fn leading_bytes(s: &str, bytes: usize) -> (out: String)
    ensures
        out@ == leading(s@, bytes as nat),
{
    take_front(s, bytes, utf8_size, Ghost(|c: char| utf8_bytes(c)))
}

// ---------------------------------------------------------------------------
// Comparing
// ---------------------------------------------------------------------------

/// Whether two strings hold the same characters.
pub fn same(a: &str, b: &str) -> (answer: bool)
    ensures
        answer == (a@ == b@),
{
    let mut left = a.chars();
    let mut right = b.chars();
    let ghost mut n: int = 0;
    loop
        invariant
            0 <= n <= a@.len(),
            n <= b@.len(),
            a@.take(n) == b@.take(n),
            vstd::std_specs::iter::IteratorSpec::remaining(&left) == a@.skip(n),
            vstd::std_specs::iter::IteratorSpec::remaining(&right) == b@.skip(n),
        decreases a@.len() - n,
    {
        let x = left.next();
        let y = right.next();
        match (x, y) {
            (None, None) => {
                assert(a@.take(n) == a@);
                assert(b@.take(n) == b@);
                return true;
            },
            (Some(c), Some(d)) => {
                if c != d {
                    assert(a@[n] != b@[n]);
                    return false;
                }
                assert(a@.take(n + 1) =~= a@.take(n).push(c));
                assert(b@.take(n + 1) =~= b@.take(n).push(d));
                proof {
                    n = n + 1;
                }
            },
            _ => {
                return false;
            },
        }
    }
}

/// Whether a list holds this text.
pub fn list_has(items: &Vec<String>, item: &str) -> (answer: bool)
    ensures
        answer == views(items@).contains(item@),
{
    for i in 0..items.len()
        invariant
            forall|j: int| 0 <= j < i ==> #[trigger] items@[j]@ != item@,
    {
        if same(items[i].as_str(), item) {
            assert(views(items@)[i as int] == item@);
            return true;
        }
    }
    assert forall|j: int| 0 <= j < views(items@).len() implies views(items@)[j] != item@ by {
        assert(items@[j]@ != item@);
    }
    false
}

/// Whether a list of names holds this text.
pub fn names_have(items: &[&'static str], item: &str) -> (answer: bool)
    ensures
        answer == views(items@).contains(item@),
{
    for i in 0..items.len()
        invariant
            forall|j: int| 0 <= j < i ==> #[trigger] items@[j]@ != item@,
    {
        if same(items[i], item) {
            assert(views(items@)[i as int] == item@);
            return true;
        }
    }
    assert forall|j: int| 0 <= j < views(items@).len() implies views(items@)[j] != item@ by {
        assert(items@[j]@ != item@);
    }
    false
}

pub fn strings_of(items: &[&str]) -> (out: Vec<String>)
    ensures
        views(out@) == views(items@),
{
    broadcast use group_lists;

    let mut out: Vec<String> = Vec::new();
    for i in 0..items.len()
        invariant
            views(out@) == views(items@.take(i as int)),
    {
        broadcast use group_lists;

        out.push(items[i].to_string());
    }
    out
}

/// Dictionary order by code point: the order of two strings is that of the
/// first characters in which they differ, and a proper prefix comes first.
pub open spec fn precedes(a: Seq<char>, b: Seq<char>) -> bool
    decreases a.len(),
{
    if b.len() == 0 {
        false
    } else if a.len() == 0 {
        true
    } else if a[0] != b[0] {
        a[0] < b[0]
    } else {
        precedes(a.drop_first(), b.drop_first())
    }
}

pub fn comes_first(a: &str, b: &str) -> (answer: bool)
    ensures
        answer == precedes(a@, b@),
{
    let mut left = a.chars();
    let mut right = b.chars();
    let ghost mut n: int = 0;
    assert(a@.skip(0) =~= a@);
    assert(b@.skip(0) =~= b@);
    loop
        invariant
            0 <= n <= a@.len(),
            n <= b@.len(),
            precedes(a@, b@) == precedes(a@.skip(n), b@.skip(n)),
            vstd::std_specs::iter::IteratorSpec::remaining(&left) == a@.skip(n),
            vstd::std_specs::iter::IteratorSpec::remaining(&right) == b@.skip(n),
        decreases a@.len() - n,
    {
        let x = left.next();
        let y = right.next();
        match (x, y) {
            (_, None) => {
                return false;
            },
            (None, _) => {
                return true;
            },
            (Some(c), Some(d)) => {
                if c != d {
                    return c < d;
                }
                assert(a@.skip(n).drop_first() =~= a@.skip(n + 1));
                assert(b@.skip(n).drop_first() =~= b@.skip(n + 1));
                proof {
                    n = n + 1;
                }
            },
        }
    }
}

proof fn lemma_precedes_irreflexive(a: Seq<char>)
    ensures
        !precedes(a, a),
    decreases a.len(),
{
    if a.len() > 0 {
        lemma_precedes_irreflexive(a.drop_first());
    }
}

/// Dictionary order is a strict total order: nothing precedes itself, of two
/// different texts exactly one precedes the other, and precedence chains.
pub proof fn law_precedes_is_a_strict_total_order(a: Seq<char>, b: Seq<char>, c: Seq<char>)
    ensures
        !precedes(a, a),
        a != b ==> (precedes(a, b) <==> !precedes(b, a)),
        precedes(a, b) && precedes(b, c) ==> precedes(a, c),
    decreases a.len() + b.len() + c.len(),
{
    lemma_precedes_irreflexive(a);
    if a.len() > 0 && b.len() > 0 && c.len() > 0 {
        law_precedes_is_a_strict_total_order(a.drop_first(), b.drop_first(), c.drop_first());
    } else if a.len() > 0 && b.len() > 0 {
        law_precedes_is_a_strict_total_order(a.drop_first(), b.drop_first(), c);
    }
    if a.len() > 0 && b.len() > 0 && a[0] == b[0] && a.drop_first() == b.drop_first() {
        assert(a =~= seq![a[0]] + a.drop_first());
        assert(b =~= seq![b[0]] + b.drop_first());
    }
    if a.len() == 0 && b.len() == 0 {
        assert(a =~= b);
    }
}

// ---------------------------------------------------------------------------
// Kinds of characters
// ---------------------------------------------------------------------------

/// Unicode white space.
pub open spec fn white(c: char) -> bool {
    let code = c as u32;
    ||| 0x9 <= code <= 0xd
    ||| code == 0x20
    ||| code == 0x85
    ||| code == 0xa0
    ||| code == 0x1680
    ||| 0x2000 <= code <= 0x200a
    ||| code == 0x2028
    ||| code == 0x2029
    ||| code == 0x202f
    ||| code == 0x205f
    ||| code == 0x3000
}

pub fn is_white(c: char) -> (answer: bool)
    ensures
        answer == white(c),
{
    let code: u32 = c as u32;
    (0x9 <= code && code <= 0xd) || code == 0x20 || code == 0x85 || code == 0xa0 || code == 0x1680
        || (0x2000 <= code && code <= 0x200a) || code == 0x2028 || code == 0x2029 || code == 0x202f
        || code == 0x205f || code == 0x3000
}

/// A control character.
pub open spec fn control(c: char) -> bool {
    let code = c as u32;
    code <= 0x1f || 0x7f <= code <= 0x9f
}

pub fn is_control(c: char) -> (answer: bool)
    ensures
        answer == control(c),
{
    let code: u32 = c as u32;
    code <= 0x1f || (0x7f <= code && code <= 0x9f)
}

pub open spec fn digit(c: char) -> bool {
    0x30 <= c as u32 <= 0x39
}

pub fn is_digit(c: char) -> (answer: bool)
    ensures
        answer == digit(c),
{
    let code: u32 = c as u32;
    0x30 <= code && code <= 0x39
}

// ---------------------------------------------------------------------------
// Trimming
// ---------------------------------------------------------------------------

/// The text without the white space it begins with.
pub open spec fn trimmed_start(s: Seq<char>) -> Seq<char>
    decreases s.len(),
{
    if s.len() > 0 && white(s[0]) {
        trimmed_start(s.drop_first())
    } else {
        s
    }
}

/// The text without the white space it ends with.
pub open spec fn trimmed_end(s: Seq<char>) -> Seq<char>
    decreases s.len(),
{
    if s.len() > 0 && white(s.last()) {
        trimmed_end(s.drop_last())
    } else {
        s
    }
}

pub open spec fn trimmed(s: Seq<char>) -> Seq<char> {
    trimmed_end(trimmed_start(s))
}

pub fn trim_start(s: &str) -> (out: String)
    ensures
        out@ == trimmed_start(s@),
{
    let chars = chars_of(s);
    let mut from: usize = 0;
    assert(s@.skip(0) =~= s@);
    while from < chars.len() && is_white(chars[from])
        invariant
            chars@ == s@,
            from <= s@.len(),
            trimmed_start(s@) == trimmed_start(s@.skip(from as int)),
        decreases s@.len() - from,
    {
        assert(s@.skip(from as int).drop_first() =~= s@.skip(from + 1));
        from = from + 1;
    }
    string_of(vstd::slice::slice_subrange(chars.as_slice(), from, chars.len()))
}

pub fn trim_end(s: &str) -> (out: String)
    ensures
        out@ == trimmed_end(s@),
{
    let chars = chars_of(s);
    let mut to: usize = chars.len();
    assert(s@.take(s@.len() as int) =~= s@);
    while to > 0 && is_white(chars[to - 1])
        invariant
            chars@ == s@,
            to <= s@.len(),
            trimmed_end(s@) == trimmed_end(s@.take(to as int)),
        decreases to,
    {
        assert(s@.take(to as int).drop_last() =~= s@.take(to - 1));
        to = to - 1;
    }
    string_of(vstd::slice::slice_subrange(chars.as_slice(), 0, to))
}

pub fn trim(s: &str) -> (out: String)
    ensures
        out@ == trimmed(s@),
{
    trim_end(trim_start(s).as_str())
}

/// The text without the repetitions of `ch` it ends with.
pub open spec fn without_trailing(s: Seq<char>, ch: char) -> Seq<char>
    decreases s.len(),
{
    if s.len() > 0 && s.last() == ch {
        without_trailing(s.drop_last(), ch)
    } else {
        s
    }
}

pub fn trim_end_of(s: &str, ch: char) -> (out: String)
    ensures
        out@ == without_trailing(s@, ch),
{
    let chars = chars_of(s);
    let mut to: usize = chars.len();
    assert(s@.take(s@.len() as int) =~= s@);
    while to > 0 && chars[to - 1] == ch
        invariant
            chars@ == s@,
            to <= s@.len(),
            without_trailing(s@, ch) == without_trailing(s@.take(to as int), ch),
        decreases to,
    {
        assert(s@.take(to as int).drop_last() =~= s@.take(to - 1));
        to = to - 1;
    }
    string_of(vstd::slice::slice_subrange(chars.as_slice(), 0, to))
}

// ---------------------------------------------------------------------------
// Taking apart
// ---------------------------------------------------------------------------

pub fn is_empty(s: &str) -> (answer: bool)
    ensures
        answer == (s@.len() == 0),
{
    s.unicode_len() == 0
}

/// What stands before the first `ch`, or the whole text where there is none.
pub open spec fn before_first<T>(s: Seq<T>, ch: T) -> Seq<T>
    decreases s.len(),
{
    if s.len() == 0 || s[0] == ch {
        Seq::empty()
    } else {
        seq![s[0]] + before_first(s.drop_first(), ch)
    }
}

/// What stands behind the last `ch`, or the whole text where there is none.
pub open spec fn after_last(s: Seq<char>, ch: char) -> Seq<char>
    decreases s.len(),
{
    if s.len() == 0 || s.last() == ch {
        Seq::empty()
    } else {
        after_last(s.drop_last(), ch).push(s.last())
    }
}

pub fn head_before(s: &str, ch: char) -> (out: String)
    ensures
        out@ == before_first(s@, ch),
{
    let chars = chars_of(s);
    let mut out = String::new();
    assert(s@.skip(0) =~= s@);
    for i in 0..chars.len()
        invariant
            chars@ == s@,
            before_first(s@, ch) == out@ + before_first(s@.skip(i as int), ch),
    {
        let ghost rest = s@.skip(i as int);
        let ghost before = out@;
        if chars[i] == ch {
            assert(before + Seq::<char>::empty() =~= before);
            return out;
        }
        out.push(chars[i]);
        proof {
            assert(rest.drop_first() =~= s@.skip(i + 1));
            assert(before + (seq![rest[0]] + before_first(s@.skip(i + 1), ch)) =~= out@
                + before_first(s@.skip(i + 1), ch));
        }
    }
    assert(out@ + Seq::<char>::empty() =~= out@);
    out
}

pub fn tail_after(s: &str, ch: char) -> (out: String)
    ensures
        out@ == after_last(s@, ch),
{
    let chars = chars_of(s);
    let mut out = String::new();
    for i in 0..chars.len()
        invariant
            chars@ == s@,
            out@ == after_last(s@.take(i as int), ch),
    {
        let c = chars[i];
        assert(s@.take(i + 1).drop_last() =~= s@.take(i as int));
        if c == ch {
            out = String::new();
        } else {
            out.push(c);
        }
    }
    assert(s@.take(s@.len() as int) =~= s@);
    out
}

/// The pieces between the occurrences of `ch`: always one more than there are
/// occurrences.
pub open spec fn pieces<T>(s: Seq<T>, ch: T) -> Seq<Seq<T>>
    decreases s.len(),
{
    if s.len() == 0 {
        seq![Seq::empty()]
    } else {
        let before = pieces(s.drop_last(), ch);
        if s.last() == ch {
            before.push(Seq::empty())
        } else {
            before.drop_last().push(before.last().push(s.last()))
        }
    }
}

/// There is always a first piece, so a text is never split into nothing.
pub broadcast proof fn lemma_pieces_exist<T>(s: Seq<T>, ch: T)
    ensures
        (#[trigger] pieces(s, ch)).len() > 0,
    decreases s.len(),
{
    if s.len() > 0 {
        lemma_pieces_exist(s.drop_last(), ch);
    }
}

pub fn split(s: &str, ch: char) -> (out: Vec<String>)
    ensures
        views(out@) == pieces(s@, ch),
        out@.len() > 0,
{
    broadcast use {group_lists, lemma_pieces_exist};

    let chars = chars_of(s);
    let mut out: Vec<String> = Vec::new();
    let mut piece = String::new();
    assert(s@.take(0) =~= Seq::empty());
    assert(views(out@).push(piece@) =~= pieces(s@.take(0), ch));
    for i in 0..chars.len()
        invariant
            chars@ == s@,
            views(out@).push(piece@) == pieces(s@.take(i as int), ch),
    {
        broadcast use {group_lists, lemma_pieces_exist};

        let c = chars[i];
        let ghost done = views(out@);
        let ghost open = piece@;
        assert(s@.take(i + 1).drop_last() =~= s@.take(i as int));
        assert(done.push(open).drop_last() =~= done);
        if c == ch {
            out.push(piece);
            piece = String::new();
        } else {
            piece.push(c);
        }
    }
    assert(s@.take(s@.len() as int) =~= s@);
    out.push(piece);
    out
}

/// Putting the pieces back together with the character they were split at
/// gives the text back.
pub proof fn law_split_then_join(s: Seq<char>, ch: char)
    ensures
        joined(pieces(s, ch), seq![ch]) == s,
    decreases s.len(),
{
    broadcast use lemma_pieces_exist;

    if s.len() > 0 {
        let rest = s.drop_last();
        let before = pieces(rest, ch);
        law_split_then_join(rest, ch);
        assert(rest.push(s.last()) =~= s);
        if s.last() == ch {
            let all = before.push(Seq::empty());
            assert(all.drop_last() =~= before);
            assert(joined(all, seq![ch]) == joined(before, seq![ch]) + seq![ch]
                + Seq::<char>::empty());
            assert(joined(all, seq![ch]) =~= s);
        } else {
            let all = before.drop_last().push(before.last().push(s.last()));
            assert(all.drop_last() =~= before.drop_last());
            assert(joined(all, seq![ch]) =~= joined(before, seq![ch]).push(s.last()));
        }
    }
}

/// The runs of characters that are not white space.
pub open spec fn words(s: Seq<char>) -> Seq<Seq<char>>
    decreases s.len(),
{
    if s.len() == 0 {
        Seq::empty()
    } else {
        let before = words(s.drop_last());
        if white(s.last()) {
            before
        } else if before.len() > 0 && !white(s[s.len() - 2]) {
            before.drop_last().push(before.last().push(s.last()))
        } else {
            before.push(seq![s.last()])
        }
    }
}

pub fn split_words(s: &str) -> (out: Vec<String>)
    ensures
        views(out@) == words(s@),
{
    broadcast use group_lists;

    let chars = chars_of(s);
    let mut out: Vec<String> = Vec::new();
    let mut word = String::new();
    let mut open = false;
    assert(s@.take(0) =~= Seq::empty());
    assert(views(out@) =~= words(s@.take(0)));
    for i in 0..chars.len()
        invariant
            chars@ == s@,
            open == (i > 0 && !white(s@[i - 1])),
            open ==> views(out@).push(word@) == words(s@.take(i as int)),
            !open ==> views(out@) == words(s@.take(i as int)),
            !open ==> word@ == Seq::<char>::empty(),
    {
        broadcast use group_lists;

        let c = chars[i];
        let ghost done = views(out@);
        let ghost part = word@;
        let ghost seen = s@.take(i + 1);
        assert(seen.drop_last() =~= s@.take(i as int));
        assert(seen.last() == c);
        if i > 0 {
            assert(seen[seen.len() - 2] == s@[i - 1]);
        }
        assert(done.push(part).drop_last() =~= done);
        if is_white(c) {
            if open {
                out.push(word);
                word = String::new();
                open = false;
            }
        } else {
            word.push(c);
            proof {
                if !open {
                    assert(word@ =~= seq![c]);
                }
            }
            open = true;
        }
    }
    assert(s@.take(s@.len() as int) =~= s@);
    if open {
        out.push(word);
    }
    out
}

/// What stands before the first `ch` and what follows it, where there is one.
pub open spec fn parted<T>(s: Seq<T>, ch: T) -> Option<(Seq<T>, Seq<T>)> {
    if s.contains(ch) {
        Some((before_first(s, ch), s.skip(before_first(s, ch).len() as int + 1)))
    } else {
        None
    }
}

proof fn lemma_before_first<T>(s: Seq<T>, ch: T)
    ensures
        before_first(s, ch).len() <= s.len(),
        s.contains(ch) <==> before_first(s, ch).len() < s.len(),
        before_first(s, ch) == s.take(before_first(s, ch).len() as int),
        !before_first(s, ch).contains(ch),
        s.contains(ch) ==> s[before_first(s, ch).len() as int] == ch,
    decreases s.len(),
{
    if s.len() > 0 && s[0] != ch {
        let rest = s.drop_first();
        lemma_before_first(rest, ch);
        let head = before_first(s, ch);
        assert(head =~= s.take(head.len() as int));
        if rest.contains(ch) {
            let i = choose|i: int| 0 <= i < rest.len() && rest[i] == ch;
            assert(s[i + 1] == ch);
        }
        if s.contains(ch) {
            let i = choose|i: int| 0 <= i < s.len() && s[i] == ch;
            assert(rest[i - 1] == ch);
        }
        assert forall|i: int| 0 <= i < head.len() implies head[i] != ch by {
            if i > 0 {
                assert(head[i] == before_first(rest, ch)[i - 1]);
            }
        }
    } else if s.len() > 0 {
        assert(s[0] == ch);
        assert(Seq::<T>::empty() =~= s.take(0));
    } else {
        assert(s =~= s.take(0));
    }
}

pub fn split_once(s: &str, ch: char) -> (out: Option<(String, String)>)
    ensures
        match out {
            Some(both) => parted(s@, ch) == Some((both.0@, both.1@)),
            None => parted(s@, ch) is None,
        },
{
    let head = head_before(s, ch);
    proof {
        lemma_before_first(s@, ch);
    }
    let chars = chars_of(s);
    let at = head.as_str().unicode_len();
    if at < chars.len() {
        let tail = string_of(vstd::slice::slice_subrange(chars.as_slice(), at + 1, chars.len()));
        assert(tail@ =~= s@.skip(at + 1));
        Some((head, tail))
    } else {
        None
    }
}

/// Splitting a text at the first `ch` loses nothing, and what stands in front
/// holds no `ch`.
pub proof fn law_parted_is_exact<T>(s: Seq<T>, ch: T)
    ensures
        match parted(s, ch) {
            Some(both) => s == both.0 + seq![ch] + both.1 && !both.0.contains(ch),
            None => !s.contains(ch),
        },
{
    lemma_before_first(s, ch);
    if s.contains(ch) {
        let head = before_first(s, ch);
        assert(s =~= head + seq![ch] + s.skip(head.len() as int + 1));
    }
}

/// Whether `s` begins with `prefix`.
pub open spec fn begins(s: Seq<char>, prefix: Seq<char>) -> bool {
    s.len() >= prefix.len() && s.take(prefix.len() as int) == prefix
}

/// Whether `s` ends with `suffix`.
pub open spec fn ends(s: Seq<char>, suffix: Seq<char>) -> bool {
    s.len() >= suffix.len() && s.skip(s.len() - suffix.len()) == suffix
}

/// What follows `prefix`, where the text begins with it.
pub open spec fn stripped(s: Seq<char>, prefix: Seq<char>) -> Option<Seq<char>> {
    if begins(s, prefix) {
        Some(s.skip(prefix.len() as int))
    } else {
        None
    }
}

pub fn strip_prefix(s: &str, prefix: &str) -> (out: Option<String>)
    ensures
        view_of(out) == stripped(s@, prefix@),
{
    let chars = chars_of(s);
    let wanted = chars_of(prefix);
    if chars.len() < wanted.len() {
        return None;
    }
    let start = string_of(vstd::slice::slice_subrange(chars.as_slice(), 0, wanted.len()));
    if !same(start.as_str(), prefix) {
        return None;
    }
    Some(string_of(vstd::slice::slice_subrange(chars.as_slice(), wanted.len(), chars.len())))
}

pub fn starts_with(s: &str, prefix: &str) -> (answer: bool)
    ensures
        answer == begins(s@, prefix@),
{
    match strip_prefix(s, prefix) {
        Some(_) => true,
        None => false,
    }
}

pub fn ends_with(s: &str, suffix: &str) -> (answer: bool)
    ensures
        answer == ends(s@, suffix@),
{
    let chars = chars_of(s);
    let wanted = chars_of(suffix);
    if chars.len() < wanted.len() {
        return false;
    }
    let from = chars.len() - wanted.len();
    let end = string_of(vstd::slice::slice_subrange(chars.as_slice(), from, chars.len()));
    same(end.as_str(), suffix)
}

// ---------------------------------------------------------------------------
// Numbers
// ---------------------------------------------------------------------------

/// The character of a decimal digit.
pub open spec fn digit_char(n: nat) -> char {
    (0x30 + n) as char
}

/// A number in decimal, without leading zeros.
pub open spec fn decimal(n: nat) -> Seq<char>
    decreases n,
{
    if n < 10 {
        seq![digit_char(n)]
    } else {
        decimal(n / 10).push(digit_char(n % 10))
    }
}

pub fn digit_of(n: u8) -> (c: char)
    requires
        n < 10,
    ensures
        c == digit_char(n as nat),
{
    (0x30 + n) as char
}

pub fn number(n: u64) -> (out: String)
    ensures
        out@ == decimal(n as nat),
    decreases n,
{
    if n < 10 {
        let mut out = String::new();
        out.push(digit_of(n as u8));
        assert(out@ =~= decimal(n as nat));
        out
    } else {
        let mut out = number(n / 10);
        out.push(digit_of((n % 10) as u8));
        out
    }
}

/// A signed number in decimal.
pub open spec fn signed_decimal(n: int) -> Seq<char> {
    if n < 0 {
        "-"@ + decimal((-n) as nat)
    } else {
        decimal(n as nat)
    }
}

pub fn signed_number(n: i64) -> (out: String)
    ensures
        out@ == signed_decimal(n as int),
{
    if n < 0 {
        let size: u64 = (-(n as i128)) as u64;
        cat2("-", number(size).as_str())
    } else {
        number(n as u64)
    }
}

/// Why a text is not a number.
#[derive(Debug, Clone, Copy, PartialEq, Eq, Structural)]
pub enum NumberError {
    Empty,
    InvalidDigit,
    TooLarge,
    TooSmall,
}

impl NumberError {
    pub open spec fn text(self) -> Seq<char> {
        match self {
            NumberError::Empty => "cannot parse integer from empty string"@,
            NumberError::InvalidDigit => "invalid digit found in string"@,
            NumberError::TooLarge => "number too large to fit in target type"@,
            NumberError::TooSmall => "number too small to fit in target type"@,
        }
    }

    pub fn message(self) -> (out: &'static str)
        ensures
            out@ == self.text(),
    {
        match self {
            NumberError::Empty => "cannot parse integer from empty string",
            NumberError::InvalidDigit => "invalid digit found in string",
            NumberError::TooLarge => "number too large to fit in target type",
            NumberError::TooSmall => "number too small to fit in target type",
        }
    }
}

/// The number that decimal digits stand for, read from the left. The first
/// character that is no digit, or the first digit that takes the number beyond
/// `max`, decides the error.
pub open spec fn digits_value(s: Seq<char>, max: nat) -> Result<nat, NumberError>
    decreases s.len(),
{
    if s.len() == 0 {
        Ok(0)
    } else {
        match digits_value(s.drop_last(), max) {
            Err(error) => Err(error),
            Ok(n) => if !digit(s.last()) {
                Err(NumberError::InvalidDigit)
            } else if n * 10 + (s.last() as u32 - 0x30) > max {
                Err(NumberError::TooLarge)
            } else {
                Ok((n * 10 + (s.last() as u32 - 0x30)) as nat)
            },
        }
    }
}

/// The unsigned number a text stands for: decimal digits, behind one `+` at
/// most.
pub open spec fn unsigned_value(s: Seq<char>, max: nat) -> Result<nat, NumberError> {
    if s.len() == 0 {
        Err(NumberError::Empty)
    } else if s[0] == '+' {
        if s.len() == 1 {
            Err(NumberError::InvalidDigit)
        } else {
            digits_value(s.drop_first(), max)
        }
    } else {
        digits_value(s, max)
    }
}

/// Whether a result of `unsigned_value` is this outcome of a parse.
pub open spec fn parsed_as(found: Result<u64, NumberError>, value: Result<nat, NumberError>) -> bool {
    match found {
        Ok(n) => value == Ok::<nat, NumberError>(n as nat),
        Err(error) => value == Err::<nat, NumberError>(error),
    }
}

pub fn parse_unsigned(s: &str, max: u64) -> (out: Result<u64, NumberError>)
    ensures
        parsed_as(out, unsigned_value(s@, max as nat)),
{
    let chars = chars_of(s);
    if chars.len() == 0 {
        return Err(NumberError::Empty);
    }
    let mut from: usize = 0;
    if chars[0] == '+' {
        if chars.len() == 1 {
            return Err(NumberError::InvalidDigit);
        }
        from = 1;
    }
    let ghost digits = s@.skip(from as int);
    assert(from == 0 ==> digits =~= s@);
    assert(from == 1 ==> digits =~= s@.drop_first());
    assert(digits.take(0) =~= Seq::empty());
    let mut n: u64 = 0;
    for i in from..chars.len()
        invariant
            from <= i,
            chars@ == s@,
            n <= max,
            digits == s@.skip(from as int),
            unsigned_value(s@, max as nat) == digits_value(digits, max as nat),
            digits_value(digits.take(i - from), max as nat) == Ok::<nat, NumberError>(n as nat),
    {
        let c = chars[i];
        let ghost seen = digits.take(i + 1 - from);
        assert(seen.drop_last() =~= digits.take(i - from));
        assert(seen.last() == c);
        if !is_digit(c) {
            proof {
                lemma_digits_error(digits, max as nat, i + 1 - from);
            }
            return Err(NumberError::InvalidDigit);
        }
        let wide: u128 = n as u128 * 10 + (c as u32 - 0x30) as u128;
        if wide > max as u128 {
            proof {
                lemma_digits_error(digits, max as nat, i + 1 - from);
            }
            return Err(NumberError::TooLarge);
        }
        n = wide as u64;
    }
    assert(digits.take(digits.len() as int) =~= digits);
    Ok(n)
}

proof fn lemma_digits_error(s: Seq<char>, max: nat, n: int)
    requires
        0 <= n <= s.len(),
        digits_value(s.take(n), max) is Err,
    ensures
        digits_value(s, max) == digits_value(s.take(n), max),
    decreases s.len() - n,
{
    if n < s.len() {
        assert(s.take(n + 1).drop_last() =~= s.take(n));
        lemma_digits_error(s, max, n + 1);
    } else {
        assert(s.take(n) =~= s);
    }
}

/// The signed number a text stands for: decimal digits, behind one `+` or `-`
/// at most, within the range of an `i64`.
pub open spec fn signed_value(s: Seq<char>) -> Result<int, NumberError> {
    if s.len() > 0 && s[0] == '-' {
        if s.len() == 1 {
            Err(NumberError::InvalidDigit)
        } else {
            match digits_value(s.drop_first(), 0x8000_0000_0000_0000) {
                Ok(n) => Ok(-n),
                Err(NumberError::TooLarge) => Err(NumberError::TooSmall),
                Err(error) => Err(error),
            }
        }
    } else {
        match unsigned_value(s, 0x7fff_ffff_ffff_ffff) {
            Ok(n) => Ok(n as int),
            Err(error) => Err(error),
        }
    }
}

proof fn lemma_digits_kind(s: Seq<char>, max: nat)
    ensures
        digits_value(s, max) != Err::<nat, NumberError>(NumberError::Empty),
        digits_value(s, max) != Err::<nat, NumberError>(NumberError::TooSmall),
        digits_value(s, max) is Ok ==> digits_value(s, max)->Ok_0 <= max,
    decreases s.len(),
{
    if s.len() > 0 {
        lemma_digits_kind(s.drop_last(), max);
    }
}

/// The signed number a text stands for.
pub fn parse_signed(s: &str) -> (out: Result<i64, NumberError>)
    ensures
        match out {
            Ok(n) => signed_value(s@) == Ok::<int, NumberError>(n as int),
            Err(error) => signed_value(s@) == Err::<int, NumberError>(error),
        },
{
    let chars = chars_of(s);
    if chars.len() > 0 && chars[0] == '-' {
        if chars.len() == 1 {
            return Err(NumberError::InvalidDigit);
        }
        let rest = string_of(vstd::slice::slice_subrange(chars.as_slice(), 1, chars.len()));
        assert(rest@ =~= s@.drop_first());
        if chars[1] == '+' {
            proof {
                let digits = s@.drop_first();
                assert(digits[0] == '+');
                lemma_digits_bad_start(digits, 0x8000_0000_0000_0000);
            }
            return Err(NumberError::InvalidDigit);
        }
        assert(rest@[0] == chars@[1]);
        proof {
            lemma_digits_kind(s@.drop_first(), 0x8000_0000_0000_0000);
        }
        return match parse_unsigned(rest.as_str(), 0x8000_0000_0000_0000) {
            Ok(n) => Ok((-(n as i128)) as i64),
            Err(NumberError::TooLarge) => Err(NumberError::TooSmall),
            Err(error) => Err(error),
        };
    }
    proof {
        lemma_digits_kind(s@, 0x7fff_ffff_ffff_ffff);
        lemma_digits_kind(s@.drop_first(), 0x7fff_ffff_ffff_ffff);
    }
    match parse_unsigned(s, 0x7fff_ffff_ffff_ffff) {
        Ok(n) => Ok(n as i64),
        Err(error) => Err(error),
    }
}

proof fn lemma_digits_bad_start(s: Seq<char>, max: nat)
    requires
        s.len() > 0,
        !digit(s[0]),
    ensures
        digits_value(s, max) == Err::<nat, NumberError>(NumberError::InvalidDigit),
{
    assert(s.take(1).drop_last() =~= Seq::empty());
    assert(digits_value(s.take(1).drop_last(), max) == Ok::<nat, NumberError>(0));
    assert(s.take(1).last() == s[0]);
    lemma_digits_error(s, max, 1);
}

/// Writing a number down and reading it back gives the number.
pub proof fn law_a_written_number_reads_back(n: nat, max: nat)
    requires
        n <= max,
    ensures
        unsigned_value(decimal(n), max) == Ok::<nat, NumberError>(n),
    decreases n,
{
    lemma_decimal_digits(n);
    lemma_decimal_value(n, max);
}

/// A written number is made of digits, at least one.
pub proof fn lemma_decimal_digits(n: nat)
    ensures
        decimal(n).len() > 0,
        forall|i: int| 0 <= i < decimal(n).len() ==> digit(#[trigger] decimal(n)[i]),
    decreases n,
{
    if n >= 10 {
        lemma_decimal_digits(n / 10);
    }
}

proof fn lemma_decimal_value(n: nat, max: nat)
    requires
        n <= max,
    ensures
        digits_value(decimal(n), max) == Ok::<nat, NumberError>(n),
    decreases n,
{
    let s = decimal(n);
    let last = n % 10;
    assert(s.last() == digit_char(last));
    assert(digit(s.last()) && s.last() as u32 - 0x30 == last);
    if n < 10 {
        assert(s.drop_last() =~= Seq::empty());
        assert(digits_value(s.drop_last(), max) == Ok::<nat, NumberError>(0));
    } else {
        lemma_decimal_value(n / 10, max);
        assert(s.drop_last() =~= decimal(n / 10));
        assert((n / 10) * 10 + last == n);
    }
}

/// The text with ASCII capitals made small.
pub open spec fn lowered(s: Seq<char>) -> Seq<char> {
    Seq::new(s.len(), |i: int| lower_char(s[i]))
}

pub open spec fn lower_char(c: char) -> char {
    if 0x41 <= c as u32 <= 0x5a {
        (c as u32 + 0x20) as char
    } else {
        c
    }
}

pub fn lowercase(s: &str) -> (out: String)
    ensures
        out@ == lowered(s@),
{
    let mut out = String::new();
    for ch in it: s.chars()
        invariant
            it.seq() == s@,
            out@ == lowered(s@.take(it.index() as int)),
    {
        let code: u32 = ch as u32;
        let small = if 0x41 <= code && code <= 0x5a {
            (code as u8 + 0x20) as char
        } else {
            ch
        };
        out.push(small);
        assert(out@ =~= lowered(s@.take(it.index() + 1)));
    }
    assert(s@.take(s@.len() as int) =~= s@);
    out
}

// ---------------------------------------------------------------------------
// Lines
// ---------------------------------------------------------------------------

/// A line without the carriage return it ends with.
pub open spec fn without_return(s: Seq<char>) -> Seq<char> {
    if s.len() > 0 && s.last() == '\r' {
        s.drop_last()
    } else {
        s
    }
}

/// The lines of a text. A line break ends a line, so nothing follows the last
/// one.
pub open spec fn lines(s: Seq<char>) -> Seq<Seq<char>> {
    let all = pieces(s, '\n');
    let ended = Seq::new((all.len() - 1) as nat, |i: int| without_return(all[i]));
    if all.last().len() == 0 {
        ended
    } else {
        ended.push(all.last())
    }
}

fn strip_return(s: &str) -> (out: String)
    ensures
        out@ == without_return(s@),
{
    let chars = chars_of(s);
    let n = chars.len();
    if n > 0 && chars[n - 1] == '\r' {
        let out = string_of(vstd::slice::slice_subrange(chars.as_slice(), 0, n - 1));
        assert(out@ =~= s@.drop_last());
        out
    } else {
        s.to_string()
    }
}

pub fn split_lines(s: &str) -> (out: Vec<String>)
    ensures
        views(out@) == lines(s@),
{
    broadcast use group_lists;

    let all = split(s, '\n');
    let ghost seen = views(all@);
    let ghost ended = Seq::new((seen.len() - 1) as nat, |i: int| without_return(seen[i]));
    let n = all.len();
    let mut out: Vec<String> = Vec::new();
    for i in 0..n - 1
        invariant
            n == all@.len(),
            n > 0,
            seen == views(all@),
            ended == Seq::new((seen.len() - 1) as nat, |i: int| without_return(seen[i])),
            views(out@) == ended.take(i as int),
    {
        broadcast use group_lists;

        let line = strip_return(all[i].as_str());
        assert(ended[i as int] == line@);
        out.push(line);
    }
    assert(ended.take(ended.len() as int) =~= ended);
    assert(seen.last() == all@[n - 1]@);
    if !is_empty(all[n - 1].as_str()) {
        out.push(all[n - 1].clone());
    }
    out
}

/// Whether a text stands somewhere inside another.
pub open spec fn holds(s: Seq<char>, part: Seq<char>) -> bool {
    exists|i: int| 0 <= i <= s.len() && begins(#[trigger] s.skip(i), part)
}

/// A text stands inside itself.
pub proof fn lemma_holds_itself(s: Seq<char>)
    ensures
        holds(s, s),
{
    assert(s.skip(0) =~= s);
    assert(s.take(s.len() as int) =~= s);
    assert(begins(s.skip(0), s));
}

/// What stands in one of two texts stands in both together.
pub broadcast proof fn lemma_holds_together(a: Seq<char>, b: Seq<char>, part: Seq<char>)
    requires
        holds(a, part) || holds(b, part),
    ensures
        #[trigger] holds(a + b, part),
{
    if holds(a, part) {
        let i = choose|i: int| 0 <= i <= a.len() && begins(#[trigger] a.skip(i), part);
        assert((a + b).skip(i).take(part.len() as int) =~= a.skip(i).take(part.len() as int));
        assert(begins((a + b).skip(i), part));
    } else {
        let i = choose|i: int| 0 <= i <= b.len() && begins(#[trigger] b.skip(i), part);
        assert((a + b).skip(a.len() + i) =~= b.skip(i));
        assert(begins((a + b).skip(a.len() + i), part));
    }
}

/// What does not end with a character is left alone by taking that character
/// off the end.
pub proof fn lemma_holds_without_trailing(s: Seq<char>, ch: char, part: Seq<char>)
    requires
        holds(s, part),
        part.len() > 0 ==> part.last() != ch,
    ensures
        holds(without_trailing(s, ch), part),
    decreases s.len(),
{
    if s.len() > 0 && s.last() == ch {
        let rest = s.drop_last();
        let i = choose|i: int| 0 <= i <= s.len() && begins(#[trigger] s.skip(i), part);
        if part.len() == 0 {
            assert(rest.skip(0).take(0) =~= part);
            assert(begins(rest.skip(0), part));
        } else {
            let found = s.skip(i).take(part.len() as int);
            assert(found.last() == s[i + part.len() - 1]);
            assert(rest.skip(i).take(part.len() as int) =~= found);
            assert(begins(rest.skip(i), part));
        }
        lemma_holds_without_trailing(rest, ch, part);
    }
}

pub fn contains(s: &str, part: &str) -> (answer: bool)
    ensures
        answer == holds(s@, part@),
{
    let chars = chars_of(s);
    let wanted = chars_of(part);
    let n = chars.len();
    let m = wanted.len();
    if m > n {
        assert forall|i: int| 0 <= i <= s@.len() implies !begins(#[trigger] s@.skip(i), part@) by {}
        return false;
    }
    if m == 0 {
        assert(s@.skip(0).take(0) =~= part@);
        assert(begins(s@.skip(0), part@));
        return true;
    }
    for i in 0..(n - m + 1)
        invariant
            chars@ == s@,
            wanted@ == part@,
            n == s@.len(),
            m == part@.len(),
            m <= n,
            forall|k: int| 0 <= k < i ==> !begins(#[trigger] s@.skip(k), part@),
    {
        let mut same = true;
        assert(s@.skip(i as int).take(0) =~= part@.take(0));
        for j in 0..m
            invariant
                chars@ == s@,
                wanted@ == part@,
                n == s@.len(),
                m == part@.len(),
                i + m <= n,
                same == (s@.skip(i as int).take(j as int) == part@.take(j as int)),
        {
            assert(s@.skip(i as int).take(j + 1) =~= s@.skip(i as int).take(j as int).push(
                chars@[i + j],
            ));
            assert(part@.take(j + 1) =~= part@.take(j as int).push(part@[j as int]));
            if chars[i + j] != wanted[j] {
                assert(s@.skip(i as int).take(j + 1)[j as int] != part@.take(j + 1)[j as int]);
                same = false;
            } else if !same {
                assert(s@.skip(i as int).take(j + 1).take(j as int) =~= s@.skip(i as int).take(
                    j as int,
                ));
                assert(part@.take(j + 1).take(j as int) =~= part@.take(j as int));
            }
        }
        assert(part@.take(m as int) =~= part@);
        if same {
            assert(begins(s@.skip(i as int), part@));
            return true;
        }
    }
    assert forall|i: int| 0 <= i <= s@.len() implies !begins(#[trigger] s@.skip(i), part@) by {}
    false
}

// ---------------------------------------------------------------------------
// Bytes
// ---------------------------------------------------------------------------

/// What `String::from_utf8_lossy` makes of bytes: text in which what is not
/// UTF-8 has been replaced.
pub uninterp spec fn lossy_text(bytes: Seq<u8>) -> Seq<char>;

/// `String::from_utf8_lossy`: the result is named, and where the bytes are
/// UTF-8 it is the text they encode.
#[verifier::external_body]
pub(crate) fn lossy(bytes: &[u8]) -> (out: String)
    ensures
        out@ == lossy_text(bytes@),
        vstd::utf8::valid_utf8(bytes@) ==> out@ == vstd::utf8::decode_utf8(bytes@),
{
    String::from_utf8_lossy(bytes).into_owned()
}

fn same_bytes(a: &[u8], b: &[u8]) -> (answer: bool)
    ensures
        answer == (a@ == b@),
{
    if a.len() != b.len() {
        return false;
    }
    for i in 0..a.len()
        invariant
            a@.len() == b@.len(),
            forall|k: int| 0 <= k < i ==> a@[k] == b@[k],
    {
        if a[i] != b[i] {
            return false;
        }
    }
    assert(a@ =~= b@);
    true
}

/// The text that bytes encode, or failing that what can be shown of them.
pub fn decode(bytes: &[u8]) -> (out: Result<String, String>)
    ensures
        match out {
            Ok(text) => vstd::utf8::valid_utf8(bytes@) && text@ == vstd::utf8::decode_utf8(bytes@),
            Err(shown) => !vstd::utf8::valid_utf8(bytes@) && shown@ == lossy_text(bytes@),
        },
{
    broadcast use vstd::utf8::group_utf8_lib;

    let text = lossy(bytes);
    if same_bytes(text.as_str().as_bytes(), bytes) {
        Ok(text)
    } else {
        Err(text)
    }
}

/// What `{:?}` prints for a text.
pub uninterp spec fn quoted_text(s: Seq<char>) -> Seq<char>;

/// `{:?}` of a string: a quoted form with escapes. The result is named.
#[verifier::external_body]
pub(crate) fn quoted(s: &str) -> (out: String)
    ensures
        out@ == quoted_text(s@),
{
    format!("{:?}", s)
}

/// The pieces of a byte string between the occurrences of a byte.
pub fn split_bytes(bytes: &[u8], at: u8) -> (out: Vec<Vec<u8>>)
    ensures
        views(out@) == pieces(bytes@, at),
        out@.len() > 0,
{
    broadcast use {group_lists, lemma_pieces_exist};

    let mut out: Vec<Vec<u8>> = Vec::new();
    let mut piece: Vec<u8> = Vec::new();
    assert(bytes@.take(0) =~= Seq::empty());
    assert(views(out@).push(piece@) =~= pieces(bytes@.take(0), at));
    for i in 0..bytes.len()
        invariant
            views(out@).push(piece@) == pieces(bytes@.take(i as int), at),
    {
        broadcast use {group_lists, lemma_pieces_exist};

        let b = bytes[i];
        let ghost done = views(out@);
        let ghost open = piece@;
        assert(bytes@.take(i + 1).drop_last() =~= bytes@.take(i as int));
        assert(done.push(open).drop_last() =~= done);
        if b == at {
            out.push(piece);
            piece = Vec::new();
        } else {
            piece.push(b);
        }
    }
    assert(bytes@.take(bytes@.len() as int) =~= bytes@);
    out.push(piece);
    out
}

/// What stands before the first occurrence of a byte and what follows it.
pub fn part_bytes(bytes: &[u8], at: u8) -> (out: Option<(Vec<u8>, Vec<u8>)>)
    ensures
        match out {
            Some(both) => parted(bytes@, at) == Some((both.0@, both.1@)),
            None => parted(bytes@, at) is None,
        },
{
    let mut head: Vec<u8> = Vec::new();
    for i in 0..bytes.len()
        invariant
            head@ == bytes@.take(i as int),
            !bytes@.take(i as int).contains(at),
    {
        if bytes[i] == at {
            let tail = vstd::slice::slice_to_vec(
                vstd::slice::slice_subrange(bytes, i + 1, bytes.len()),
            );
            proof {
                lemma_parted_at(bytes@, at, i as int);
                assert(tail@ =~= bytes@.skip(i + 1));
            }
            return Some((head, tail));
        }
        proof {
            let longer = bytes@.take(i + 1);
            assert forall|j: int| 0 <= j < longer.len() implies longer[j] != at by {
                if j < i {
                    assert(bytes@.take(i as int)[j] == longer[j]);
                }
            }
        }
        head.push(bytes[i]);
        assert(head@ =~= bytes@.take(i + 1));
    }
    assert(bytes@.take(bytes@.len() as int) =~= bytes@);
    None
}

/// A text made of two parts and the character between them, which the first
/// does not hold, comes apart there.
pub proof fn lemma_parted_pair<T>(head: Seq<T>, tail: Seq<T>, ch: T)
    requires
        !head.contains(ch),
    ensures
        parted(head.push(ch) + tail, ch) == Some((head, tail)),
{
    let s = head.push(ch) + tail;
    let at = head.len() as int;
    assert(s.take(at) =~= head);
    assert(s.skip(at + 1) =~= tail);
    lemma_parted_at(s, ch, at);
}

proof fn lemma_parted_at<T>(s: Seq<T>, ch: T, at: int)
    requires
        0 <= at < s.len(),
        s[at] == ch,
        !s.take(at).contains(ch),
    ensures
        parted(s, ch) == Some((s.take(at), s.skip(at + 1))),
{
    lemma_before_first(s, ch);
    let head = before_first(s, ch);
    assert(s.contains(ch));
    if head.len() < at {
        assert(s.take(at)[head.len() as int] == ch);
    } else if head.len() > at {
        assert(head[at] == ch);
        assert(head.contains(ch));
    }
}

/// Bytes read as characters of the same value.
pub open spec fn latin(bytes: Seq<u8>) -> Seq<char> {
    Seq::new(bytes.len(), |i: int| bytes[i] as char)
}

pub fn latin_of(bytes: &[u8]) -> (out: String)
    ensures
        out@ == latin(bytes@),
{
    let mut out = String::new();
    for i in 0..bytes.len()
        invariant
            out@ == latin(bytes@).take(i as int),
    {
        out.push(bytes[i] as char);
        assert(out@ =~= latin(bytes@).take(i + 1));
    }
    assert(latin(bytes@).take(bytes@.len() as int) =~= latin(bytes@));
    out
}

// ---------------------------------------------------------------------------
// Laws
// ---------------------------------------------------------------------------

/// Whether a text holds nothing but white space.
pub open spec fn blank(s: Seq<char>) -> bool {
    forall|i: int| 0 <= i < s.len() ==> white(#[trigger] s[i])
}

/// Of ASCII, white space is the space and the five controls from tab to carriage
/// return, and digits are `0` to `9`.
pub proof fn law_ascii_classes(c: char)
    requires
        c as u32 <= 0x7f,
    ensures
        white(c) <==> c == ' ' || c == '\t' || c == '\n' || c == '\u{b}' || c == '\u{c}' || c
            == '\r',
        digit(c) <==> '0' <= c <= '9',
        control(c) <==> c < ' ' || c == '\u{7f}',
{
}

/// White space separates words: a text that comes apart at some has the words of
/// its two parts.
pub proof fn law_words_come_apart_at_white_space(a: Seq<char>, c: char, b: Seq<char>)
    requires
        white(c),
    ensures
        words(a.push(c) + b) == words(a) + words(b),
    decreases b.len(),
{
    let s = a.push(c) + b;
    if b.len() == 0 {
        assert(s =~= a.push(c));
        assert(s.drop_last() =~= a);
        assert(words(a) + words(b) =~= words(a));
    } else {
        let rest = b.drop_last();
        law_words_come_apart_at_white_space(a, c, rest);
        assert(s.drop_last() =~= a.push(c) + rest);
        assert(s.last() == b.last());
        if rest.len() > 0 {
            assert(s[s.len() - 2] == b[b.len() - 2]);
            if !white(b[b.len() - 2]) {
                lemma_open_word(rest);
                assert(words(s.drop_last()).last() == words(rest).last());
                assert(words(s.drop_last()).drop_last() =~= words(a) + words(rest).drop_last());
            }
        } else {
            assert(s[s.len() - 2] == c);
        }
        assert(words(s) =~= words(a) + words(b));
    }
}

proof fn lemma_open_word(s: Seq<char>)
    requires
        s.len() > 0,
        !white(s.last()),
    ensures
        words(s).len() > 0,
{
}

/// A text without white space is one word.
pub proof fn law_a_text_without_white_space_is_one_word(s: Seq<char>)
    requires
        s.len() > 0,
        forall|i: int| 0 <= i < s.len() ==> !white(#[trigger] s[i]),
    ensures
        words(s) == seq![s],
    decreases s.len(),
{
    let rest = s.drop_last();
    assert(!white(s.last()));
    if rest.len() > 0 {
        assert forall|i: int| 0 <= i < rest.len() implies !white(#[trigger] rest[i]) by {
            assert(rest[i] == s[i]);
        }
        law_a_text_without_white_space_is_one_word(rest);
        assert(!white(s[s.len() - 2]));
        assert(words(s) =~= seq![rest.push(s.last())]);
        assert(rest.push(s.last()) =~= s);
    } else {
        assert(words(rest) =~= Seq::empty());
        assert(seq![s.last()] =~= s);
        assert(words(s) =~= seq![s]);
    }
}

/// Words are never empty and hold no white space; a text has none exactly where
/// it is blank, and more than one exactly where white space stands between two
/// characters that are none.
pub proof fn law_words_are_runs(s: Seq<char>)
    ensures
        forall|i: int, k: int|
            0 <= i < words(s).len() && 0 <= k < words(s)[i].len() ==> !white(
                #[trigger] words(s)[i][k],
            ),
        forall|i: int| 0 <= i < words(s).len() ==> (#[trigger] words(s)[i]).len() > 0,
        words(s).len() == 0 <==> blank(s),
        words(s).len() > 1 <==> exists|i: int, j: int, k: int|
            0 <= i < j < k < s.len() && !white(#[trigger] s[i]) && white(#[trigger] s[j]) && !white(
                #[trigger] s[k],
            ),
    decreases s.len(),
{
    if s.len() > 0 {
        let rest = s.drop_last();
        law_words_are_runs(rest);
        let n = s.len() - 1;
        let before = words(rest);
        assert(forall|i: int| 0 <= i < n ==> rest[i] == s[i]);
        if white(s.last()) {
            assert(blank(s) <==> blank(rest));
        } else {
            assert(!blank(s)) by {
                assert(!white(s[n]));
            }
        }
        assert(words(rest).len() > 1 ==> words(s).len() > 1);
        let spaced = exists|i: int, j: int, k: int|
            0 <= i < j < k < s.len() && !white(#[trigger] s[i]) && white(#[trigger] s[j]) && !white(
                #[trigger] s[k],
            );
        if words(s).len() > 1 {
            if before.len() > 1 {
                let (i, j, k) = choose|i: int, j: int, k: int|
                    0 <= i < j < k < rest.len() && !white(#[trigger] rest[i]) && white(
                        #[trigger] rest[j],
                    ) && !white(#[trigger] rest[k]);
                assert(!white(s[i]) && white(s[j]) && !white(s[k]));
            } else {
                assert(before.len() == 1 && !white(s[n]) && white(s[n - 1]));
                assert(!blank(rest));
                let i = choose|i: int| 0 <= i < rest.len() && !white(#[trigger] rest[i]);
                assert(!white(s[i]) && white(s[n - 1]) && !white(s[n]));
            }
            assert(spaced);
        }
        if spaced && before.len() <= 1 {
            let (i, j, k) = choose|i: int, j: int, k: int|
                0 <= i < j < k < s.len() && !white(#[trigger] s[i]) && white(#[trigger] s[j])
                    && !white(#[trigger] s[k]);
            if k < n {
                assert(!white(rest[i]) && white(rest[j]) && !white(rest[k]));
            } else {
                assert(!white(rest[i]));
                assert(!blank(rest));
                if !white(s[n - 1]) {
                    assert(!white(rest[i]) && white(rest[j]) && !white(rest[n - 1]));
                }
            }
        }
    }
}

/// Trimming takes white space off the ends and nothing else: what is left is a
/// stretch of the text with white space on either side of it, and it neither
/// begins nor ends with any.
pub proof fn law_trimming_takes_white_space_off_the_ends(s: Seq<char>)
    ensures
        exists|i: int, j: int|
            0 <= i <= j <= s.len() && trimmed(s) == #[trigger] s.subrange(i, j) && blank(s.take(i))
                && blank(s.skip(j)),
        trimmed(s).len() > 0 ==> !white(trimmed(s)[0]) && !white(trimmed(s).last()),
        trimmed(s).len() == 0 <==> blank(s),
{
    let mid = trimmed_start(s);
    law_trimming_the_start(s);
    law_trimming_the_end(mid);
    let i = s.len() - mid.len();
    let j = i + trimmed_end(mid).len();
    assert(trimmed(s) =~= s.subrange(i, j));
    assert(s.skip(j) =~= mid.skip(trimmed_end(mid).len() as int));
    if trimmed(s).len() == 0 {
        assert forall|k: int| 0 <= k < s.len() implies white(#[trigger] s[k]) by {
            if k < i {
                assert(s.take(i)[k] == s[k]);
            } else {
                assert(s.skip(j)[k - j] == s[k]);
            }
        }
    } else {
        assert(trimmed(s)[0] == mid[0]);
        assert(trimmed(s)[0] == s[i]);
    }
}

/// The same for the white space a text begins with.
pub proof fn law_trimming_the_start(s: Seq<char>)
    ensures
        trimmed_start(s).len() <= s.len(),
        trimmed_start(s) == s.skip(s.len() - trimmed_start(s).len()),
        blank(s.take(s.len() - trimmed_start(s).len())),
        trimmed_start(s).len() > 0 ==> !white(trimmed_start(s)[0]),
    decreases s.len(),
{
    if s.len() > 0 && white(s[0]) {
        let rest = s.drop_first();
        law_trimming_the_start(rest);
        let cut = s.len() - trimmed_start(s).len();
        assert(trimmed_start(s) =~= s.skip(cut));
        assert forall|k: int| 0 <= k < cut implies white(#[trigger] s.take(cut)[k]) by {
            if k > 0 {
                assert(rest.take(cut - 1)[k - 1] == s[k]);
            }
        }
    } else {
        assert(s.skip(0) =~= s);
    }
}

/// The same for the white space a text ends with.
pub proof fn law_trimming_the_end(s: Seq<char>)
    ensures
        trimmed_end(s).len() <= s.len(),
        trimmed_end(s) == s.take(trimmed_end(s).len() as int),
        blank(s.skip(trimmed_end(s).len() as int)),
        trimmed_end(s).len() > 0 ==> !white(trimmed_end(s).last()),
    decreases s.len(),
{
    if s.len() > 0 && white(s.last()) {
        let rest = s.drop_last();
        law_trimming_the_end(rest);
        let n = trimmed_end(s).len() as int;
        assert(trimmed_end(s) =~= s.take(n));
        assert forall|k: int| 0 <= k < s.len() - n implies white(#[trigger] s.skip(n)[k]) by {
            if k < rest.len() - n {
                assert(rest.skip(n)[k] == s[n + k]);
            }
        }
    } else {
        assert(s.take(s.len() as int) =~= s);
    }
}

/// No piece holds the character that the text was split at.
pub proof fn law_no_piece_holds_the_separator<T>(s: Seq<T>, ch: T)
    ensures
        forall|i: int| 0 <= i < pieces(s, ch).len() ==> !(#[trigger] pieces(s, ch)[i]).contains(ch),
    decreases s.len(),
{
    broadcast use lemma_pieces_exist;

    if s.len() > 0 {
        law_no_piece_holds_the_separator(s.drop_last(), ch);
        let before = pieces(s.drop_last(), ch);
        let all = pieces(s, ch);
        assert forall|i: int| 0 <= i < all.len() implies !(#[trigger] all[i]).contains(ch) by {
            if i < before.len() - 1 || (s.last() == ch && i < before.len()) {
                assert(all[i] == before[i]);
            } else if s.last() != ch {
                let open = before.last();
                assert(!before[before.len() - 1].contains(ch));
                assert forall|k: int| 0 <= k < all[i].len() implies all[i][k] != ch by {
                    if k < open.len() {
                        assert(open[k] == all[i][k]);
                        assert(open.contains(open[k]));
                    }
                }
            }
        }
    }
}

/// A text that comes apart at the separator has the pieces of its two parts.
pub proof fn law_pieces_come_apart_at_the_separator<T>(a: Seq<T>, ch: T, b: Seq<T>)
    ensures
        pieces(a.push(ch) + b, ch) == pieces(a, ch) + pieces(b, ch),
    decreases b.len(),
{
    broadcast use lemma_pieces_exist;

    let s = a.push(ch) + b;
    if b.len() == 0 {
        assert(s =~= a.push(ch));
        assert(s.drop_last() =~= a);
        assert(pieces(s, ch) =~= pieces(a, ch) + pieces(b, ch));
    } else {
        law_pieces_come_apart_at_the_separator(a, ch, b.drop_last());
        assert(s.drop_last() =~= a.push(ch) + b.drop_last());
        assert(s.last() == b.last());
        assert(pieces(s, ch) =~= pieces(a, ch) + pieces(b, ch));
    }
}

/// A text without the separator is one piece.
pub proof fn law_a_text_without_the_separator_is_one_piece<T>(s: Seq<T>, ch: T)
    requires
        !s.contains(ch),
    ensures
        pieces(s, ch) == seq![s],
    decreases s.len(),
{
    if s.len() > 0 {
        let rest = s.drop_last();
        assert forall|i: int| 0 <= i < rest.len() implies rest[i] != ch by {
            assert(s[i] == rest[i]);
            assert(s.contains(s[i]));
        }
        assert(s.contains(s.last()));
        law_a_text_without_the_separator_is_one_piece(rest, ch);
        assert(rest.push(s.last()) =~= s);
        assert(pieces(s, ch) =~= seq![s]);
    } else {
        assert(s =~= Seq::empty());
    }
}

/// A line ends at its line break, with or without a carriage return in front of
/// it, and the lines of what follows come behind it.
pub proof fn law_a_line_break_ends_a_line(line: Seq<char>, rest: Seq<char>)
    requires
        !line.contains('\n'),
        line.len() == 0 || line.last() != '\r',
    ensures
        lines(line.push('\n') + rest) == seq![line] + lines(rest),
        lines(line.push('\r').push('\n') + rest) == seq![line] + lines(rest),
        line.len() > 0 ==> lines(line) == seq![line],
        lines(Seq::empty()) == Seq::<Seq<char>>::empty(),
{
    broadcast use lemma_pieces_exist;

    law_a_text_without_the_separator_is_one_piece(line, '\n');
    law_pieces_come_apart_at_the_separator(line, '\n', rest);
    let held = line.push('\r');
    assert(!held.contains('\n')) by {
        assert forall|i: int| 0 <= i < held.len() implies held[i] != '\n' by {
            if i < line.len() {
                assert(line.contains(line[i]));
            }
        }
    }
    law_a_text_without_the_separator_is_one_piece(held, '\n');
    law_pieces_come_apart_at_the_separator(held, '\n', rest);
    assert(held.drop_last() =~= line);
    assert(lines(line.push('\n') + rest) =~= seq![line] + lines(rest));
    assert(lines(held.push('\n') + rest) =~= seq![line] + lines(rest));
    if line.len() > 0 {
        assert(lines(line) =~= seq![line]);
    }
    assert(lines(Seq::empty()) =~= Seq::<Seq<char>>::empty());
}

/// Two lists joined are each joined, with one separator between them; a list of
/// one is that one.
pub proof fn law_joining_puts_one_separator_between(
    a: Seq<Seq<char>>,
    b: Seq<Seq<char>>,
    separator: Seq<char>,
)
    requires
        a.len() > 0,
        b.len() > 0,
    ensures
        joined(a + b, separator) == joined(a, separator) + separator + joined(b, separator),
        joined(seq![a[0]], separator) == a[0],
    decreases b.len(),
{
    let all = a + b;
    if b.len() == 1 {
        assert(all.drop_last() =~= a);
    } else {
        let rest = b.drop_last();
        law_joining_puts_one_separator_between(a, rest, separator);
        assert(all.drop_last() =~= a + rest);
        assert(joined(all, separator) =~= joined(a, separator) + separator + joined(b, separator));
    }
}

/// A prefix is what stands in front: it can be put there and taken off, and
/// taking it off anything else is refused.
pub proof fn law_a_prefix_comes_off(prefix: Seq<char>, rest: Seq<char>, s: Seq<char>)
    ensures
        begins(prefix + rest, prefix),
        ends(rest + prefix, prefix),
        stripped(prefix + rest, prefix) == Some(rest),
        stripped(s, prefix) is Some ==> s == prefix + stripped(s, prefix)->0,
        stripped(s, prefix) is Some <==> begins(s, prefix),
        begins(s, prefix) <==> exists|tail: Seq<char>| s == #[trigger] (prefix + tail),
{
    assert((prefix + rest).take(prefix.len() as int) =~= prefix);
    assert((prefix + rest).skip(prefix.len() as int) =~= rest);
    assert((rest + prefix).skip(rest.len() as int) =~= prefix);
    if begins(s, prefix) {
        let tail = s.skip(prefix.len() as int);
        assert(s =~= prefix + tail);
    }
    if exists|tail: Seq<char>| s == #[trigger] (prefix + tail) {
        let tail = choose|tail: Seq<char>| s == #[trigger] (prefix + tail);
        assert((prefix + tail).take(prefix.len() as int) =~= prefix);
    }
}

/// A whole number written down, with its sign, reads back as itself.
pub proof fn law_a_signed_number_reads_back(n: int)
    requires
        i64::MIN <= n <= i64::MAX,
    ensures
        signed_value(signed_decimal(n)) == Ok::<int, NumberError>(n),
{
    reveal_strlit("-");
    if n < 0 {
        let digits = decimal((-n) as nat);
        lemma_decimal_digits((-n) as nat);
        lemma_decimal_value((-n) as nat, 0x8000_0000_0000_0000);
        assert(signed_decimal(n).drop_first() =~= digits);
        assert(signed_decimal(n)[0] == '-');
    } else {
        lemma_decimal_digits(n as nat);
        assert(digit(decimal(n as nat)[0]));
        law_a_written_number_reads_back(n as nat, 0x7fff_ffff_ffff_ffff);
    }
}

/// A text that holds anything but digits behind an optional sign is no number,
/// and neither is one without a digit.
pub proof fn law_only_digits_are_a_number(s: Seq<char>, max: nat)
    requires
        unsigned_value(s, max) is Ok,
    ensures
        ({
            let digits = if s[0] == '+' {
                s.drop_first()
            } else {
                s
            };
            &&& digits.len() > 0
            &&& forall|i: int| 0 <= i < digits.len() ==> digit(#[trigger] digits[i])
            &&& unsigned_value(s, max)->Ok_0 <= max
        }),
{
    let digits = if s[0] == '+' {
        s.drop_first()
    } else {
        s
    };
    lemma_digits_only(digits, max);
}

proof fn lemma_digits_only(s: Seq<char>, max: nat)
    requires
        digits_value(s, max) is Ok,
    ensures
        forall|i: int| 0 <= i < s.len() ==> digit(#[trigger] s[i]),
        s.len() > 0 ==> digits_value(s, max)->Ok_0 <= max,
    decreases s.len(),
{
    if s.len() > 0 {
        let rest = s.drop_last();
        lemma_digits_only(rest, max);
        assert forall|i: int| 0 <= i < s.len() implies digit(#[trigger] s[i]) by {
            if i < rest.len() {
                assert(digit(rest[i]));
            }
        }
    }
}

/// Of two texts the one comes first whose character is less where they first
/// differ, and a text comes before every longer one that begins with it.
pub proof fn law_the_first_difference_decides(
    same: Seq<char>,
    x: char,
    y: char,
    a: Seq<char>,
    b: Seq<char>,
)
    requires
        x != y,
    ensures
        precedes(same + seq![x] + a, same + seq![y] + b) <==> x < y,
        precedes(same, same + seq![x] + a),
        !precedes(same + seq![x] + a, same),
    decreases same.len(),
{
    let left = same + seq![x] + a;
    let right = same + seq![y] + b;
    if same.len() > 0 {
        let rest = same.drop_first();
        law_the_first_difference_decides(rest, x, y, a, b);
        assert(left.drop_first() =~= rest + seq![x] + a);
        assert(right.drop_first() =~= rest + seq![y] + b);
        assert(left[0] == same[0] && right[0] == same[0]);
    }
}

/// A text is parted at the first separator: what stands in front of it and what
/// stands behind it, whatever that holds.
pub proof fn law_a_text_is_parted_at_the_first_separator<T>(a: Seq<T>, ch: T, b: Seq<T>)
    requires
        !a.contains(ch),
    ensures
        parted(a.push(ch) + b, ch) == Some((a, b)),
        before_first(a.push(ch) + b, ch) == a,
        before_first(a, ch) == a,
    decreases a.len(),
{
    let s = a.push(ch) + b;
    assert(s[a.len() as int] == ch);
    if a.len() > 0 {
        let rest = a.drop_first();
        assert(a.contains(a[0]));
        if rest.contains(ch) {
            let i = choose|i: int| 0 <= i < rest.len() && rest[i] == ch;
            assert(a[i + 1] == ch);
        }
        law_a_text_is_parted_at_the_first_separator(rest, ch, b);
        assert(s.drop_first() =~= rest.push(ch) + b);
        assert(seq![a[0]] + rest =~= a);
    } else {
        assert(a =~= Seq::empty());
        assert(before_first(s, ch) =~= a);
    }
    assert(s.skip(a.len() as int + 1) =~= b);
}

/// What stands behind the last separator is the end of the text that holds none.
pub proof fn law_what_stands_behind_the_last_separator(a: Seq<char>, ch: char, b: Seq<char>)
    requires
        !b.contains(ch),
    ensures
        after_last(a.push(ch) + b, ch) == b,
        after_last(b, ch) == b,
    decreases b.len(),
{
    let s = a.push(ch) + b;
    if b.len() > 0 {
        let rest = b.drop_last();
        assert(b.contains(b[b.len() - 1]));
        if rest.contains(ch) {
            let i = choose|i: int| 0 <= i < rest.len() && rest[i] == ch;
            assert(b[i] == ch);
        }
        law_what_stands_behind_the_last_separator(a, ch, rest);
        assert(s.drop_last() =~= a.push(ch) + rest);
        assert(s.last() == b.last());
        assert(rest.push(b.last()) =~= b);
    } else {
        assert(s.last() == ch);
        assert(b =~= Seq::empty());
    }
}

/// Lowering a text lowers each capital of the alphabet and leaves every other
/// character as it is.
pub proof fn law_lowering_leaves_no_capital(s: Seq<char>, i: int)
    requires
        0 <= i < s.len(),
    ensures
        lowered(s).len() == s.len(),
        !('A' <= lowered(s)[i] <= 'Z'),
        !('A' <= s[i] <= 'Z') ==> lowered(s)[i] == s[i],
        'A' <= s[i] <= 'Z' ==> lowered(s)[i] as u32 == s[i] as u32 + 32,
        lowered(lowered(s)) == lowered(s),
{
    lemma_lower_char(s[i]);
    assert forall|k: int| 0 <= k < s.len() implies #[trigger] lowered(lowered(s))[k] == lowered(
        s,
    )[k] by {
        lemma_lower_char(s[k]);
        lemma_lower_char(lowered(s)[k]);
    }
    assert(lowered(lowered(s)) =~= lowered(s));
}

proof fn lemma_lower_char(c: char)
    ensures
        !('A' <= lower_char(c) <= 'Z'),
        !('A' <= c <= 'Z') ==> lower_char(c) == c,
        'A' <= c <= 'Z' ==> lower_char(c) as u32 == c as u32 + 32,
{
}

/// Zeros in front of a written number change nothing about what it reads as.
pub proof fn law_zeros_in_front_change_nothing(n: nat, zeros: nat, max: nat)
    requires
        n <= max,
    ensures
        unsigned_value(repeated('0', zeros) + decimal(n), max) == Ok::<nat, NumberError>(n),
{
    lemma_decimal_digits(n);
    lemma_decimal_value(n, max);
    let digits = decimal(n);
    let told = repeated('0', zeros) + digits;
    lemma_zeros_in_front(digits, zeros, max);
    assert(digit(digits[0]));
    assert(told[0] == '0' || told[0] == digits[0]);
}

proof fn lemma_zeros_in_front(s: Seq<char>, zeros: nat, max: nat)
    ensures
        digits_value(repeated('0', zeros) + s, max) == digits_value(s, max),
    decreases s.len(), zeros,
{
    let told = repeated('0', zeros) + s;
    if s.len() > 0 {
        lemma_zeros_in_front(s.drop_last(), zeros, max);
        assert(told.drop_last() =~= repeated('0', zeros) + s.drop_last());
        assert(told.last() == s.last());
    } else if zeros > 0 {
        let fewer = (zeros - 1) as nat;
        lemma_zeros_in_front(s, fewer, max);
        assert(told.drop_last() =~= repeated('0', fewer) + s);
        assert(told.last() == '0');
    } else {
        assert(told =~= s);
    }
}

} // verus!
