//! Paths, as the text that names them.
//!
//! A path is compared by its components, so `/code/app` and `/code/app/` are
//! one place.

use vstd::prelude::*;

use crate::model::Text;
use crate::strings;

verus! {

/// One step of a path.
#[derive(Debug, PartialEq, Eq)]
pub enum Component<T = String> {
    /// The `/` an absolute path begins with.
    Root,
    /// A `.` that the path begins with.
    Current,
    Parent,
    Normal { name: T },
}

impl View for Component {
    type V = Component<Text>;

    open spec fn view(&self) -> Component<Text> {
        match self {
            Component::Root => Component::Root,
            Component::Current => Component::Current,
            Component::Parent => Component::Parent,
            Component::Normal { name } => Component::Normal { name: name@ },
        }
    }
}

/// The components that the pieces between the separators stand for. An empty
/// piece is none, and neither is a `.` that something stands before.
pub open spec fn named(pieces: Seq<Text>) -> Seq<Component<Text>>
    decreases pieces.len(),
{
    if pieces.len() == 0 {
        Seq::empty()
    } else {
        let before = named(pieces.drop_last());
        let piece = pieces.last();
        if piece.len() == 0 {
            before
        } else if piece == "."@ {
            if pieces.len() == 1 {
                before.push(Component::Current)
            } else {
                before
            }
        } else if piece == ".."@ {
            before.push(Component::Parent)
        } else {
            before.push(Component::Normal { name: piece })
        }
    }
}

pub open spec fn absolute(path: Text) -> bool {
    path.len() > 0 && path[0] == '/'
}

pub open spec fn components(path: Text) -> Seq<Component<Text>> {
    if absolute(path) {
        seq![Component::Root] + named(strings::pieces(path, '/'))
    } else {
        named(strings::pieces(path, '/'))
    }
}

/// Whether two texts name one place.
pub open spec fn same_place(a: Text, b: Text) -> bool {
    components(a) == components(b)
}

pub fn is_absolute(path: &str) -> (answer: bool)
    ensures
        answer == absolute(path@),
{
    path.unicode_len() > 0 && path.get_char(0) == '/'
}

pub fn components_of(path: &str) -> (out: Vec<Component>)
    ensures
        strings::views(out@) == components(path@),
{
    broadcast use strings::group_lists;

    let pieces = strings::split(path, '/');
    let mut out: Vec<Component> = Vec::new();
    if is_absolute(path) {
        out.push(Component::Root);
    }
    let ghost start = strings::views(out@);
    assert(start =~= if absolute(path@) {
        seq![Component::<Text>::Root]
    } else {
        Seq::empty()
    });
    assert(start + named(Seq::empty()) =~= start);
    for i in 0..pieces.len()
        invariant
            strings::views(out@) == start + named(strings::views(pieces@).take(i as int)),
    {
        broadcast use strings::group_lists;

        let ghost all = strings::views(pieces@);
        let ghost before = named(all.take(i as int));
        assert(all.take(i as int).push(all[i as int]) == all.take(i + 1));
        let piece = &pieces[i];
        if strings::is_empty(piece.as_str()) {
        } else if strings::same(piece.as_str(), ".") {
            if i == 0 {
                assert(start + before.push(Component::Current) =~= (start + before).push(
                    Component::Current,
                ));
                out.push(Component::Current);
            }
        } else if strings::same(piece.as_str(), "..") {
            assert(start + before.push(Component::Parent) =~= (start + before).push(
                Component::Parent,
            ));
            out.push(Component::Parent);
        } else {
            assert(start + before.push(Component::Normal { name: piece@ }) =~= (start
                + before).push(Component::Normal { name: piece@ }));
            out.push(Component::Normal { name: piece.clone() });
        }
    }
    proof {
        let tail = named(strings::views(pieces@));
        if !absolute(path@) {
            assert(start + tail =~= tail);
        }
    }
    out
}

fn same_component(a: &Component, b: &Component) -> (answer: bool)
    ensures
        answer == (a@ == b@),
{
    match (a, b) {
        (Component::Root, Component::Root) => true,
        (Component::Current, Component::Current) => true,
        (Component::Parent, Component::Parent) => true,
        (Component::Normal { name: x }, Component::Normal { name: y }) => strings::same(
            x.as_str(),
            y.as_str(),
        ),
        _ => false,
    }
}

#[verifier::loop_isolation(false)]
pub fn is_same_place(a: &str, b: &str) -> (answer: bool)
    ensures
        answer == same_place(a@, b@),
{
    let left = components_of(a);
    let right = components_of(b);
    if left.len() != right.len() {
        assert(strings::views(left@).len() != strings::views(right@).len());
        return false;
    }
    for i in 0..left.len()
        invariant
            left@.len() == right@.len(),
            strings::views(left@).take(i as int) == strings::views(right@).take(i as int),
    {
        broadcast use strings::group_lists;

        if !same_component(&left[i], &right[i]) {
            assert(strings::views(left@)[i as int] != strings::views(right@)[i as int]);
            return false;
        }
        proof {
            let l = strings::views(left@);
            let r = strings::views(right@);
            assert(l.take(i as int).push(l[i as int]) == l.take(i + 1));
            assert(r.take(i as int).push(r[i as int]) == r.take(i + 1));
        }
    }
    proof {
        broadcast use strings::group_lists;

        let l = strings::views(left@);
        let r = strings::views(right@);
        assert(l.take(l.len() as int) == l);
        assert(r.take(r.len() as int) == r);
    }
    true
}

/// Where a component stands: the root first, then `.`, then `..`, then names.
pub open spec fn component_rank(component: Component<Text>) -> int {
    match component {
        Component::Root => 0,
        Component::Current => 1,
        Component::Parent => 2,
        Component::Normal { .. } => 3,
    }
}

pub open spec fn component_precedes(a: Component<Text>, b: Component<Text>) -> bool {
    match (a, b) {
        (Component::Normal { name: x }, Component::Normal { name: y }) => strings::precedes(x, y),
        _ => component_rank(a) < component_rank(b),
    }
}

/// Dictionary order by component.
pub open spec fn list_precedes(a: Seq<Component<Text>>, b: Seq<Component<Text>>) -> bool
    decreases a.len(),
{
    if b.len() == 0 {
        false
    } else if a.len() == 0 {
        true
    } else if a[0] != b[0] {
        component_precedes(a[0], b[0])
    } else {
        list_precedes(a.drop_first(), b.drop_first())
    }
}

/// The order of paths: that of the first components in which they differ.
pub open spec fn path_precedes(a: Text, b: Text) -> bool {
    list_precedes(components(a), components(b))
}

fn component_level(component: &Component) -> (n: u8)
    ensures
        n == component_rank(component@),
{
    match component {
        Component::Root => 0,
        Component::Current => 1,
        Component::Parent => 2,
        Component::Normal { .. } => 3,
    }
}

#[verifier::loop_isolation(false)]
pub fn comes_first(a: &str, b: &str) -> (answer: bool)
    ensures
        answer == path_precedes(a@, b@),
{
    let left = components_of(a);
    let right = components_of(b);
    let ghost l = strings::views(left@);
    let ghost r = strings::views(right@);
    let mut i: usize = 0;
    assert(l.skip(0) =~= l);
    assert(r.skip(0) =~= r);
    while i < left.len() && i < right.len()
        invariant
            i <= left@.len(),
            i <= right@.len(),
            l == strings::views(left@),
            r == strings::views(right@),
            list_precedes(l, r) == list_precedes(l.skip(i as int), r.skip(i as int)),
        decreases left@.len() - i,
    {
        assert(l.skip(i as int)[0] == left@[i as int]@);
        assert(r.skip(i as int)[0] == right@[i as int]@);
        if !same_component(&left[i], &right[i]) {
            return match (&left[i], &right[i]) {
                (Component::Normal { name: x }, Component::Normal { name: y }) => strings::comes_first(
                    x.as_str(),
                    y.as_str(),
                ),
                _ => component_level(&left[i]) < component_level(&right[i]),
            };
        }
        assert(l.skip(i as int).drop_first() =~= l.skip(i + 1));
        assert(r.skip(i as int).drop_first() =~= r.skip(i + 1));
        i = i + 1;
    }
    i < right.len()
}

/// The last component, where it is a name.
pub open spec fn last_name(path: Text) -> Option<Text> {
    let steps = components(path);
    if steps.len() > 0 {
        match steps.last() {
            Component::Normal { name } => Some(name),
            _ => None,
        }
    } else {
        None
    }
}

pub fn file_name(path: &str) -> (out: Option<String>)
    ensures
        strings::view_of(out) == last_name(path@),
{
    let steps = components_of(path);
    assert(strings::views(steps@).len() == steps@.len());
    if steps.len() == 0 {
        return None;
    }
    assert(strings::views(steps@).last() == steps@.last()@);
    match &steps[steps.len() - 1] {
        Component::Normal { name } => Some(name.clone()),
        _ => None,
    }
}

/// `tail` seen from `base`: an absolute tail stands for itself, any other goes
/// below the base.
pub open spec fn below(base: Text, tail: Text) -> Text {
    if absolute(tail) {
        tail
    } else if base.len() == 0 || base.last() == '/' {
        base + tail
    } else {
        base + "/"@ + tail
    }
}

pub fn join(base: &str, tail: &str) -> (out: String)
    ensures
        out@ == below(base@, tail@),
{
    if is_absolute(tail) {
        return tail.to_string();
    }
    let n = base.unicode_len();
    if n == 0 || base.get_char(n - 1) == '/' {
        strings::cat2(base, tail)
    } else {
        strings::cat3(base, "/", tail)
    }
}

pub open spec fn component_text(component: Component<Text>) -> Text {
    match component {
        Component::Root => "/"@,
        Component::Current => "."@,
        Component::Parent => ".."@,
        Component::Normal { name } => name,
    }
}

/// A path put together from its components.
pub open spec fn rebuilt(steps: Seq<Component<Text>>) -> Text
    decreases steps.len(),
{
    if steps.len() == 0 {
        Seq::empty()
    } else {
        below(rebuilt(steps.drop_last()), component_text(steps.last()))
    }
}

fn text_of(component: &Component) -> (out: &str)
    ensures
        out@ == component_text(component@),
{
    match component {
        Component::Root => "/",
        Component::Current => ".",
        Component::Parent => "..",
        Component::Normal { name } => name.as_str(),
    }
}

/// A path put together from the first `count` components.
fn build(steps: &Vec<Component>, count: usize) -> (out: String)
    requires
        count <= steps@.len(),
    ensures
        out@ == rebuilt(strings::views(steps@).take(count as int)),
{
    broadcast use strings::group_lists;

    let ghost all = strings::views(steps@);
    let mut out = String::new();
    for i in 0..count
        invariant
            count <= steps@.len(),
            all == strings::views(steps@),
            out@ == rebuilt(all.take(i as int)),
    {
        broadcast use strings::group_lists;

        assert(all.take(i + 1).drop_last() =~= all.take(i as int));
        assert(all[i as int] == steps@[i as int]@);
        out = join(out.as_str(), text_of(&steps[i]));
    }
    out
}

/// The directory a path lies in; nothing lies above the root.
pub open spec fn above(path: Text) -> Option<Text> {
    let steps = components(path);
    if steps.len() == 0 || steps.last() is Root {
        None
    } else {
        Some(rebuilt(steps.drop_last()))
    }
}

pub fn parent(path: &str) -> (out: Option<String>)
    ensures
        strings::view_of(out) == above(path@),
{
    let steps = components_of(path);
    let n = steps.len();
    assert(strings::views(steps@).len() == n);
    if n == 0 {
        return None;
    }
    assert(strings::views(steps@).last() == steps@[n - 1]@);
    match &steps[n - 1] {
        Component::Root => None,
        _ => {
            assert(strings::views(steps@).drop_last() =~= strings::views(steps@).take(n - 1));
            Some(build(&steps, n - 1))
        },
    }
}

/// A path without a `.` at its beginning, separators in a row or at its end.
pub open spec fn plain(path: Text) -> Text {
    let steps = components(path);
    rebuilt(
        if steps.len() > 0 && steps[0] is Current {
            steps.skip(1)
        } else {
            steps
        },
    )
}

pub fn tidied(path: &str) -> (out: String)
    ensures
        out@ == plain(path@),
{
    let mut steps = components_of(path);
    let ghost all = strings::views(steps@);
    if steps.len() > 0 {
        assert(all[0] == steps@[0]@);
        if let Component::Current = &steps[0] {
            let first = steps.remove(0);
            assert(strings::views(steps@) =~= all.skip(1));
        }
    }
    let n = steps.len();
    assert(strings::views(steps@).take(n as int) =~= strings::views(steps@));
    build(&steps, n)
}

/// Whether `base` is `path` or one of the directories above it.
pub open spec fn inside(path: Text, base: Text) -> bool {
    components(path).len() >= components(base).len() && components(path).take(
        components(base).len() as int,
    ) == components(base)
}

#[verifier::loop_isolation(false)]
pub fn is_inside(path: &str, base: &str) -> (answer: bool)
    ensures
        answer == inside(path@, base@),
{
    let steps = components_of(path);
    let above = components_of(base);
    let ghost s = strings::views(steps@);
    let ghost a = strings::views(above@);
    if steps.len() < above.len() {
        return false;
    }
    for i in 0..above.len()
        invariant
            above@.len() <= steps@.len(),
            s == strings::views(steps@),
            a == strings::views(above@),
            s.take(i as int) == a.take(i as int),
    {
        broadcast use strings::group_lists;

        if !same_component(&steps[i], &above[i]) {
            assert(s.take(a.len() as int)[i as int] != a[i as int]);
            return false;
        }
        assert(s.take(i as int).push(s[i as int]) == s.take(i + 1));
        assert(a.take(i as int).push(a[i as int]) == a.take(i + 1));
    }
    assert(a.take(a.len() as int) =~= a);
    true
}

proof fn lemma_component_order(a: Component<Text>, b: Component<Text>, c: Component<Text>)
    ensures
        !component_precedes(a, a),
        component_precedes(a, b) && component_precedes(b, c) ==> component_precedes(a, c),
        a != b ==> (component_precedes(a, b) <==> !component_precedes(b, a)),
{
    let x = if a is Normal {
        a->name
    } else {
        Seq::empty()
    };
    let y = if b is Normal {
        b->name
    } else {
        Seq::empty()
    };
    let z = if c is Normal {
        c->name
    } else {
        Seq::empty()
    };
    strings::law_precedes_is_a_strict_total_order(x, y, z);
}

proof fn lemma_list_order(
    a: Seq<Component<Text>>,
    b: Seq<Component<Text>>,
    c: Seq<Component<Text>>,
)
    ensures
        !list_precedes(a, a),
        list_precedes(a, b) && list_precedes(b, c) ==> list_precedes(a, c),
        a != b ==> (list_precedes(a, b) <==> !list_precedes(b, a)),
    decreases a.len() + b.len() + c.len(),
{
    if a.len() > 0 && b.len() > 0 && c.len() > 0 {
        lemma_component_order(a[0], b[0], c[0]);
        lemma_list_order(a.drop_first(), b.drop_first(), c.drop_first());
    } else if a.len() > 0 && b.len() > 0 {
        lemma_component_order(a[0], b[0], a[0]);
        lemma_list_order(a.drop_first(), b.drop_first(), c);
    } else if a.len() > 0 {
        lemma_list_order(a.drop_first(), b, c);
    }
    if a.len() > 0 && b.len() > 0 && a[0] == b[0] && a.drop_first() == b.drop_first() {
        assert(a =~= seq![a[0]] + a.drop_first());
        assert(b =~= seq![b[0]] + b.drop_first());
    }
    if a.len() == 0 && b.len() == 0 {
        assert(a =~= b);
    }
}

/// The order of paths is an ordering: no path precedes itself, preceding
/// chains, and so does not preceding.
pub proof fn law_path_order_is_an_ordering(a: Text, b: Text, c: Text)
    ensures
        !path_precedes(a, a),
        path_precedes(a, b) && path_precedes(b, c) ==> path_precedes(a, c),
        !path_precedes(a, b) && !path_precedes(b, c) ==> !path_precedes(a, c),
{
    let (x, y, z) = (components(a), components(b), components(c));
    lemma_list_order(x, y, z);
    lemma_list_order(y, x, z);
}

/// Sharing a place is an equivalence, so it can stand for identity.
pub proof fn law_same_place_is_an_equivalence(a: Text, b: Text, c: Text)
    ensures
        same_place(a, a),
        same_place(a, b) ==> same_place(b, a),
        same_place(a, b) && same_place(b, c) ==> same_place(a, c),
{
}

// ---------------------------------------------------------------------------
// Paths that are no text
// ---------------------------------------------------------------------------

/// A path as it was listed: its text, or its bytes where they are no UTF-8.
#[derive(Debug, PartialEq, Eq)]
pub enum Place<T = String, B = Vec<u8>> {
    Named(T),
    Raw(B),
}

impl View for Place {
    type V = Place<Text, Seq<u8>>;

    open spec fn view(&self) -> Place<Text, Seq<u8>> {
        match self {
            Place::Named(path) => Place::Named(path@),
            Place::Raw(bytes) => Place::Raw(bytes@),
        }
    }
}

impl Clone for Place {
    fn clone(&self) -> (out: Self)
        ensures
            out@ == self@,
    {
        match self {
            Place::Named(path) => Place::Named(path.clone()),
            Place::Raw(bytes) => {
                let copy = vstd::slice::slice_to_vec(bytes.as_slice());
                assert(copy@ =~= bytes@);
                Place::Raw(copy)
            },
        }
    }
}

impl Place<Text, Seq<u8>> {
    /// The path as it can be shown.
    pub open spec fn shown(self) -> Text {
        match self {
            Place::Named(path) => path,
            Place::Raw(bytes) => strings::lossy_text(bytes),
        }
    }

    /// The bytes of the path.
    pub open spec fn bytes(self) -> Seq<u8> {
        match self {
            Place::Named(path) => vstd::utf8::encode_utf8(path),
            Place::Raw(bytes) => bytes,
        }
    }
}

impl Place {
    /// The path as it can be shown.
    pub fn display(&self) -> (out: String)
        ensures
            out@ == self@.shown(),
    {
        match self {
            Place::Named(path) => path.clone(),
            Place::Raw(bytes) => strings::lossy(bytes.as_slice()),
        }
    }
}

/// The path that some bytes are.
pub open spec fn place_of(bytes: Seq<u8>) -> Place<Text, Seq<u8>> {
    if vstd::utf8::valid_utf8(bytes) {
        Place::Named(vstd::utf8::decode_utf8(bytes))
    } else {
        Place::Raw(bytes)
    }
}

pub fn place(bytes: &[u8]) -> (out: Place)
    ensures
        out@ == place_of(bytes@),
{
    match strings::decode(bytes) {
        Ok(path) => Place::Named(path),
        Err(_) => {
            let copy = vstd::slice::slice_to_vec(bytes);
            assert(copy@ =~= bytes@);
            Place::Raw(copy)
        },
    }
}

/// A path keeps its bytes, whatever they are.
pub proof fn law_a_place_keeps_its_bytes(bytes: Seq<u8>)
    ensures
        place_of(bytes).bytes() == bytes,
{
    broadcast use vstd::utf8::group_utf8_lib;

}

// ---------------------------------------------------------------------------
// Lists of places
// ---------------------------------------------------------------------------

pub open spec fn has_place(list: Seq<Text>, place: Text) -> bool {
    exists|i: int| 0 <= i < list.len() && same_place(#[trigger] list[i], place)
}

pub fn holds_place(list: &Vec<String>, place: &str) -> (answer: bool)
    ensures
        answer == has_place(strings::views(list@), place@),
{
    let ghost all = strings::views(list@);
    for i in 0..list.len()
        invariant
            all == strings::views(list@),
            forall|k: int| 0 <= k < i ==> !same_place(#[trigger] all[k], place@),
    {
        assert(all[i as int] == list@[i as int]@);
        if is_same_place(list[i].as_str(), place) {
            return true;
        }
    }
    false
}

/// A list with one more place, unless it is there already.
pub open spec fn with_place(list: Seq<Text>, place: Text) -> Seq<Text> {
    if has_place(list, place) {
        list
    } else {
        list.push(place)
    }
}

pub fn push_unique(list: &mut Vec<String>, place: &str)
    ensures
        strings::views(final(list)@) == with_place(strings::views(old(list)@), place@),
{
    broadcast use strings::group_lists;

    if !holds_place(list, place) {
        list.push(place.to_string());
    }
}

// ---------------------------------------------------------------------------
// Laws on the steps of a path
// ---------------------------------------------------------------------------

/// Whether a text is the name of one file: it is not empty, holds no slash and is
/// neither of the two dotted names.
pub open spec fn is_name(name: Text) -> bool {
    name.len() > 0 && !name.contains('/') && name != "."@ && name != ".."@
}

proof fn lemma_named_more(pieces: Seq<Text>, piece: Text)
    ensures
        pieces.len() > 0 ==> named(pieces.push(piece)) == (if piece.len() == 0 || piece == "."@ {
            named(pieces)
        } else if piece == ".."@ {
            named(pieces).push(Component::Parent)
        } else {
            named(pieces).push(Component::Normal { name: piece })
        }),
{
    assert(pieces.push(piece).drop_last() =~= pieces);
}

proof fn lemma_one_more_step(path: Text, piece: Text)
    requires
        path.len() > 0,
        !piece.contains('/'),
    ensures
        components(path.push('/') + piece) == (if piece.len() == 0 || piece == "."@ {
            components(path)
        } else if piece == ".."@ {
            components(path).push(Component::Parent)
        } else {
            components(path).push(Component::Normal { name: piece })
        }),
{
    broadcast use strings::lemma_pieces_exist;

    let whole = path.push('/') + piece;
    let pieces = strings::pieces(path, '/');
    strings::law_pieces_come_apart_at_the_separator(path, '/', piece);
    strings::law_a_text_without_the_separator_is_one_piece(piece, '/');
    assert(pieces + seq![piece] =~= pieces.push(piece));
    lemma_named_more(pieces, piece);
    assert(whole[0] == path[0]);
    let root = seq![Component::<Text>::Root];
    assert((root + named(pieces)).push(Component::Parent) =~= root + named(pieces).push(
        Component::Parent,
    ));
    assert((root + named(pieces)).push(Component::Normal { name: piece }) =~= root + named(
        pieces,
    ).push(Component::Normal { name: piece }));
}

/// A name behind a slash is one step further: it is the last name of the path,
/// the path is inside the one in front of it and not the other way round, and
/// comes behind it in the order of paths.
pub proof fn law_a_name_is_one_step_further(path: Text, name: Text)
    requires
        path.len() > 0,
        is_name(name),
    ensures
        ({
            let longer = path.push('/') + name;
            &&& components(longer) == components(path).push(Component::Normal { name })
            &&& last_name(longer) == Some(name)
            &&& inside(longer, path)
            &&& !inside(path, longer)
            &&& !same_place(path, longer)
            &&& path_precedes(path, longer)
        }),
{
    lemma_one_more_step(path, name);
    let steps = components(path);
    let more = steps.push(Component::Normal { name });
    assert(more.take(steps.len() as int) =~= steps);
    lemma_longer_comes_behind(steps, Component::Normal { name });
}

proof fn lemma_longer_comes_behind(steps: Seq<Component<Text>>, step: Component<Text>)
    ensures
        list_precedes(steps, steps.push(step)),
    decreases steps.len(),
{
    if steps.len() > 0 {
        lemma_longer_comes_behind(steps.drop_first(), step);
        assert(steps.push(step).drop_first() =~= steps.drop_first().push(step));
    }
}

/// A slash too many and a dot behind a slash lead nowhere else; two dots are a
/// step of their own.
pub proof fn law_slashes_and_dots_lead_nowhere(path: Text)
    requires
        path.len() > 0,
    ensures
        same_place(path.push('/'), path),
        same_place(path + "/."@, path),
        components(path + "/.."@) == components(path).push(Component::Parent),
{
    reveal_strlit("/.");
    reveal_strlit("/..");
    reveal_strlit(".");
    reveal_strlit("..");
    lemma_one_more_step(path, Seq::empty());
    assert(path.push('/') + Seq::<char>::empty() =~= path.push('/'));
    assert(!"."@.contains('/')) by {
        assert(forall|i: int| 0 <= i < 1 ==> "."@[i] == '.');
    }
    lemma_one_more_step(path, "."@);
    assert(path.push('/') + "."@ =~= path + "/."@);
    assert(!".."@.contains('/')) by {
        assert(forall|i: int| 0 <= i < 2 ==> ".."@[i] == '.');
    }
    lemma_one_more_step(path, ".."@);
    assert(".."@.len() == 2 && "."@.len() == 1);
    assert(path.push('/') + ".."@ =~= path + "/.."@);
}

/// A name on its own is one step, from the root where a slash stands in front of
/// it. A path is absolute exactly where it begins with a slash, and the two never
/// lead to the same place.
pub proof fn law_a_path_starts_at_the_root_or_here(name: Text, path: Text, other: Text)
    requires
        is_name(name),
    ensures
        components(name) == seq![Component::Normal { name }],
        components(seq!['/'] + name) == seq![Component::Root, Component::Normal { name }],
        absolute(path) <==> strings::begins(path, seq!['/']),
        absolute(path) && !absolute(other) ==> !same_place(path, other),
{
    strings::law_a_text_without_the_separator_is_one_piece(name, '/');
    let empty: Text = Seq::empty();
    strings::law_a_text_without_the_separator_is_one_piece(empty, '/');
    strings::law_pieces_come_apart_at_the_separator(empty, '/', name);
    assert(empty.push('/') + name =~= seq!['/'] + name);
    if name[0] == '/' {
        assert(name.contains('/'));
    }
    let one = seq![name];
    let two = seq![empty] + seq![name];
    assert(one.drop_last() =~= Seq::empty());
    assert(named(one.drop_last()) =~= Seq::empty());
    assert(two.drop_last() =~= seq![empty]);
    assert(seq![empty].drop_last() =~= Seq::empty());
    assert(named(seq![empty].drop_last()) =~= Seq::empty());
    assert(named(seq![empty]) =~= Seq::empty());
    assert(named(one) =~= seq![Component::Normal { name }]);
    assert(named(two) =~= seq![Component::Normal { name }]);
    assert(components(seq!['/'] + name) =~= seq![Component::Root, Component::Normal { name }]);
    if path.len() > 0 {
        assert(path.take(1)[0] == path[0]);
        assert(path.take(1) =~= seq![path[0]]);
    }
    if absolute(path) && !absolute(other) {
        lemma_named_has_no_root(strings::pieces(other, '/'));
        assert(components(path)[0] is Root);
    }
}

proof fn lemma_named_has_no_root(pieces: Seq<Text>)
    ensures
        forall|i: int| 0 <= i < named(pieces).len() ==> !(#[trigger] named(pieces)[i] is Root),
    decreases pieces.len(),
{
    if pieces.len() > 0 {
        lemma_named_has_no_root(pieces.drop_last());
    }
}

/// To go below a directory is to take one step more from it; an absolute path
/// starts over.
pub proof fn law_below_is_one_step_further(base: Text, name: Text, tail: Text)
    requires
        is_name(name),
    ensures
        components(below(base, name)) == components(base).push(Component::Normal { name }),
        inside(below(base, name), base),
        last_name(below(base, name)) == Some(name),
        absolute(tail) ==> below(base, tail) == tail,
{
    reveal_strlit("/");
    if name[0] == '/' {
        assert(name.contains('/'));
    }
    if base.len() == 0 {
        law_a_path_starts_at_the_root_or_here(name, name, name);
        assert(base + name =~= name);
        let empty: Text = Seq::empty();
        strings::law_a_text_without_the_separator_is_one_piece(empty, '/');
        assert(base =~= empty);
        assert(seq![empty].drop_last() =~= Seq::empty());
        assert(named(seq![empty].drop_last()) =~= Seq::empty());
        assert(components(base) =~= Seq::empty());
    } else if base.last() == '/' {
        let start = base.drop_last();
        assert(start.push('/') =~= base);
        if start.len() == 0 {
            law_a_path_starts_at_the_root_or_here(name, name, name);
            assert(base =~= seq!['/']);
            let empty: Text = Seq::empty();
            strings::law_a_text_without_the_separator_is_one_piece(empty, '/');
            strings::law_pieces_come_apart_at_the_separator(empty, '/', empty);
            assert(empty.push('/') + empty =~= base);
            let two = seq![empty] + seq![empty];
            assert(two.drop_last() =~= seq![empty]);
            assert(seq![empty].drop_last() =~= Seq::empty());
            assert(named(seq![empty].drop_last()) =~= Seq::empty());
            assert(named(seq![empty]) =~= Seq::empty());
            assert(named(two) =~= Seq::empty());
            assert(components(base) =~= seq![Component::Root]);
        } else {
            lemma_one_more_step(start, name);
            law_slashes_and_dots_lead_nowhere(start);
        }
    } else {
        lemma_one_more_step(base, name);
        assert(base + "/"@ + name =~= base.push('/') + name);
    }
    let steps = components(base);
    let more = steps.push(Component::Normal { name });
    assert(more.take(steps.len() as int) =~= steps);
}

/// Being inside chains, everything is inside itself, and two that are inside each
/// other are the same place.
pub proof fn law_being_inside_is_an_order(a: Text, b: Text, c: Text)
    ensures
        inside(a, a),
        inside(a, b) && inside(b, c) ==> inside(a, c),
        inside(a, b) && inside(b, a) <==> same_place(a, b),
{
    let (x, y, z) = (components(a), components(b), components(c));
    assert(x.take(x.len() as int) =~= x);
    assert(y.take(y.len() as int) =~= y);
    if inside(a, b) && inside(b, c) {
        assert(x.take(z.len() as int) =~= x.take(y.len() as int).take(z.len() as int));
    }
}

/// A directory stands above what is one step below it, and nothing stands above
/// the root.
pub proof fn law_above_undoes_below(base: Text, name: Text)
    requires
        is_name(name),
    ensures
        above(below(base, name)) == Some(rebuilt(components(base))),
        above(seq!['/']) is None,
{
    law_below_is_one_step_further(base, name, name);
    let steps = components(base);
    assert(steps.push(Component::Normal { name }).drop_last() =~= steps);
    let empty: Text = Seq::empty();
    strings::law_a_text_without_the_separator_is_one_piece(empty, '/');
    strings::law_pieces_come_apart_at_the_separator(empty, '/', empty);
    assert(empty.push('/') + empty =~= seq!['/']);
    let two = seq![empty] + seq![empty];
    assert(two.drop_last() =~= seq![empty]);
    assert(seq![empty].drop_last() =~= Seq::empty());
    assert(named(seq![empty].drop_last()) =~= Seq::empty());
    assert(named(seq![empty]) =~= Seq::empty());
    assert(named(two) =~= Seq::empty());
    assert(components(seq!['/']) =~= seq![Component::Root]);
}

/// Whether steps are those of a path: the root and the dot stand at its start
/// only, and every other step is two dots or a name.
pub open spec fn are_steps(steps: Seq<Component<Text>>) -> bool {
    forall|i: int|
        0 <= i < steps.len() ==> match #[trigger] steps[i] {
            Component::Root | Component::Current => i == 0,
            Component::Parent => true,
            Component::Normal { name } => is_name(name),
        }
}

proof fn lemma_named_are_steps(pieces: Seq<Text>)
    requires
        forall|i: int| 0 <= i < pieces.len() ==> !(#[trigger] pieces[i]).contains('/'),
    ensures
        are_steps(named(pieces)),
        forall|i: int| 0 <= i < named(pieces).len() ==> !(#[trigger] named(pieces)[i] is Root),
        forall|i: int|
            0 <= i < named(pieces).len() && #[trigger] named(pieces)[i] is Current
                ==> pieces.len() > 0 && pieces[0] == "."@,
    decreases pieces.len(),
{
    if pieces.len() > 0 {
        let rest = pieces.drop_last();
        assert(forall|i: int| 0 <= i < rest.len() ==> #[trigger] rest[i] == pieces[i]);
        lemma_named_are_steps(rest);
        assert(!pieces[pieces.len() - 1].contains('/'));
        if pieces.len() == 1 {
            assert(named(rest) =~= Seq::empty());
        }
        let before = named(rest);
        let all = named(pieces);
        assert forall|i: int| 0 <= i < all.len() implies match #[trigger] all[i] {
            Component::Root | Component::Current => i == 0,
            Component::Parent => true,
            Component::Normal { name } => is_name(name),
        } by {
            if i < before.len() {
                assert(all[i] == before[i]);
            }
        }
        assert forall|i: int| 0 <= i < all.len() implies !(#[trigger] all[i] is Root) by {
            if i < before.len() {
                assert(all[i] == before[i]);
            }
        }
        assert forall|i: int| 0 <= i < all.len() && #[trigger] all[i] is Current implies pieces[0]
            == "."@ by {
            if i < before.len() {
                assert(all[i] == before[i]);
            }
        }
    }
}

proof fn lemma_components_are_steps(path: Text)
    ensures
        are_steps(components(path)),
{
    strings::law_no_piece_holds_the_separator(path, '/');
    let pieces = strings::pieces(path, '/');
    lemma_named_are_steps(pieces);
    if absolute(path) {
        let rest = path.drop_first();
        let empty: Text = Seq::empty();
        strings::law_pieces_come_apart_at_the_separator(empty, '/', rest);
        strings::law_a_text_without_the_separator_is_one_piece(empty, '/');
        assert(empty.push('/') + rest =~= path);
        assert(pieces[0] =~= empty);
        reveal_strlit(".");
        let steps = components(path);
        assert forall|i: int| 0 <= i < steps.len() implies match #[trigger] steps[i] {
            Component::Root | Component::Current => i == 0,
            Component::Parent => true,
            Component::Normal { name } => is_name(name),
        } by {
            if i > 0 {
                assert(steps[i] == named(pieces)[i - 1]);
            }
        }
    }
}

/// A path that is put together again from its steps leads to the same place.
pub proof fn law_steps_put_together_lead_to_the_same_place(path: Text)
    ensures
        same_place(rebuilt(components(path)), path),
{
    lemma_components_are_steps(path);
    lemma_rebuilt(components(path));
}

/// So the directory above what is one step below it is that directory.
pub proof fn law_above_leads_back(base: Text, name: Text)
    requires
        is_name(name),
    ensures
        above(below(base, name)) is Some,
        same_place(above(below(base, name))->0, base),
{
    law_above_undoes_below(base, name);
    law_steps_put_together_lead_to_the_same_place(base);
}

proof fn lemma_rebuilt(steps: Seq<Component<Text>>)
    requires
        are_steps(steps),
    ensures
        components(rebuilt(steps)) == steps,
        steps.len() > 0 ==> rebuilt(steps).len() > 0,
    decreases steps.len(),
{
    reveal_strlit("/");
    reveal_strlit(".");
    reveal_strlit("..");
    let empty: Text = Seq::empty();
    strings::law_a_text_without_the_separator_is_one_piece(empty, '/');
    assert(seq![empty].drop_last() =~= Seq::empty());
    assert(named(seq![empty].drop_last()) =~= Seq::empty());
    assert(named(seq![empty]) =~= Seq::empty());
    if steps.len() == 0 {
        assert(components(empty) =~= steps);
    } else {
        let rest = steps.drop_last();
        assert(forall|i: int| 0 <= i < rest.len() ==> #[trigger] rest[i] == steps[i]);
        lemma_rebuilt(rest);
        let start = rebuilt(rest);
        let last = steps[steps.len() - 1];
        assert(rest.push(last) =~= steps);
        match last {
            Component::Root => {
                assert(rest =~= Seq::empty());
                strings::law_pieces_come_apart_at_the_separator(empty, '/', empty);
                assert(empty.push('/') + empty =~= "/"@);
                let two = seq![empty] + seq![empty];
                assert(two.drop_last() =~= seq![empty]);
                assert(named(two) =~= Seq::empty());
                assert(components("/"@) =~= seq![Component::Root]);
            },
            Component::Current => {
                assert(rest =~= Seq::empty());
                assert(start =~= empty);
                assert(start + "."@ =~= "."@);
                assert(!"."@.contains('/'));
                strings::law_a_text_without_the_separator_is_one_piece("."@, '/');
                assert(seq!["."@].drop_last() =~= Seq::empty());
                assert(named(seq!["."@].drop_last()) =~= Seq::empty());
                assert(components("."@) =~= seq![Component::Current]);
            },
            Component::Parent => {
                assert(!".."@.contains('/'));
                if start.len() == 0 {
                    assert(rest.len() == 0);
                    assert(start + ".."@ =~= ".."@);
                    strings::law_a_text_without_the_separator_is_one_piece(".."@, '/');
                    assert(seq![".."@].drop_last() =~= Seq::empty());
                    assert(named(seq![".."@].drop_last()) =~= Seq::empty());
                    assert(".."@.len() == 2 && "."@.len() == 1);
                    assert(components(".."@) =~= seq![Component::Parent]);
                } else if start.last() == '/' {
                    lemma_behind_a_slash(start, ".."@);
                } else {
                    lemma_one_more_step(start, ".."@);
                    assert(start + "/"@ + ".."@ =~= start.push('/') + ".."@);
                }
            },
            Component::Normal { name } => {
                law_below_is_one_step_further(start, name, name);
            },
        }
    }
}

proof fn lemma_behind_a_slash(base: Text, piece: Text)
    requires
        base.len() > 0,
        base.last() == '/',
        piece == ".."@,
    ensures
        components(base + piece) == components(base).push(Component::Parent),
{
    reveal_strlit("..");
    reveal_strlit(".");
    assert(!piece.contains('/'));
    assert(piece.len() == 2 && "."@.len() == 1);
    let start = base.drop_last();
    let empty: Text = Seq::empty();
    assert(start.push('/') =~= base);
    assert(start.push('/') + empty =~= base);
    strings::law_a_text_without_the_separator_is_one_piece(empty, '/');
    strings::law_a_text_without_the_separator_is_one_piece(piece, '/');
    strings::law_pieces_come_apart_at_the_separator(start, '/', piece);
    strings::law_pieces_come_apart_at_the_separator(start, '/', empty);
    broadcast use strings::lemma_pieces_exist;

    let pieces = strings::pieces(start, '/');
    assert(pieces + seq![piece] =~= pieces.push(piece));
    assert(pieces + seq![empty] =~= pieces.push(empty));
    lemma_named_more(pieces, piece);
    lemma_named_more(pieces, empty);
    assert((base + piece)[0] == base[0]);
    let root = seq![Component::<Text>::Root];
    assert((root + named(pieces)).push(Component::Parent) =~= root + named(pieces).push(
        Component::Parent,
    ));
}

/// A path written plainly leads to the same place, without a dot at its start.
pub proof fn law_a_plain_path_leads_to_the_same_place(path: Text)
    ensures
        components(plain(path)) == (if components(path).len() > 0 && components(path)[0] is Current {
            components(path).drop_first()
        } else {
            components(path)
        }),
{
    lemma_components_are_steps(path);
    let steps = components(path);
    if steps.len() > 0 && steps[0] is Current {
        let rest = steps.skip(1);
        assert(rest =~= steps.drop_first());
        assert forall|i: int| 0 <= i < rest.len() implies match #[trigger] rest[i] {
            Component::Root | Component::Current => i == 0,
            Component::Parent => true,
            Component::Normal { name } => is_name(name),
        } by {
            assert(rest[i] == steps[i + 1]);
        }
        lemma_rebuilt(rest);
    } else {
        lemma_rebuilt(steps);
    }
}

/// Of two paths the one comes first whose step comes first where they differ: the
/// root before the dot, that before the two dots, those before a name, and names
/// in the order of texts.
pub proof fn law_the_first_different_step_decides(
    same: Seq<Component<Text>>,
    a: Seq<Component<Text>>,
    b: Seq<Component<Text>>,
    x: Text,
    y: Text,
)
    requires
        x != y,
    ensures
        list_precedes(
            same + seq![Component::Normal { name: x }] + a,
            same + seq![Component::Normal { name: y }] + b,
        ) <==> strings::precedes(x, y),
        list_precedes(
            same + seq![Component::Parent] + a,
            same + seq![Component::Normal { name: y }] + b,
        ),
        list_precedes(
            same + seq![Component::Current] + a,
            same + seq![Component::Parent] + b,
        ),
        list_precedes(
            same + seq![Component::Root] + a,
            same + seq![Component::Current] + b,
        ),
    decreases same.len(),
{
    if same.len() > 0 {
        law_the_first_different_step_decides(same.drop_first(), a, b, x, y);
        lemma_step_in_front(same, Component::Normal { name: x }, a);
        lemma_step_in_front(same, Component::Normal { name: y }, b);
        lemma_step_in_front(same, Component::Parent, a);
        lemma_step_in_front(same, Component::Parent, b);
        lemma_step_in_front(same, Component::Current, a);
        lemma_step_in_front(same, Component::Current, b);
        lemma_step_in_front(same, Component::Root, a);
    }
}

proof fn lemma_step_in_front(
    same: Seq<Component<Text>>,
    step: Component<Text>,
    rest: Seq<Component<Text>>,
)
    requires
        same.len() > 0,
    ensures
        (same + seq![step] + rest).drop_first() == same.drop_first() + seq![step] + rest,
        (same + seq![step] + rest)[0] == same[0],
{
    assert((same + seq![step] + rest).drop_first() =~= same.drop_first() + seq![step] + rest);
}

/// A place is in a list exactly where one of the list is the same place, and is
/// added only where none is.
pub proof fn law_a_place_is_listed_once(list: Seq<Text>, place: Text, other: Text)
    ensures
        !has_place(Seq::empty(), place),
        has_place(list.push(place), other) <==> has_place(list, other) || same_place(place, other),
        has_place(with_place(list, place), other) <==> has_place(list, other) || same_place(
            place,
            other,
        ),
        has_place(list, place) ==> with_place(list, place) == list,
        !has_place(list, place) ==> with_place(list, place) == list.push(place),
{
    let more = list.push(place);
    if has_place(list, other) {
        let i = choose|i: int| 0 <= i < list.len() && same_place(#[trigger] list[i], other);
        assert(more[i] == list[i]);
    }
    if same_place(place, other) {
        assert(more[list.len() as int] == place);
        if has_place(list, place) {
            let i = choose|i: int| 0 <= i < list.len() && same_place(#[trigger] list[i], place);
            assert(same_place(list[i], other));
        }
    }
    if has_place(more, other) {
        let i = choose|i: int| 0 <= i < more.len() && same_place(#[trigger] more[i], other);
        if i < list.len() {
            assert(list[i] == more[i]);
        }
    }
}

} // verus!
