//! Reading the text that stands next to a landmark.

use crate::geometry::{gap, gap_of, UNIT};
use crate::model::{fragments, fragments_of_refs, Fragment, TextItem};
use crate::order::{
    key_ints, keys_of, lemma_ranking_is_permutation, lemma_select_sorted, sort_by_keys, sorted_by,
    sorted_by_keys,
};
use crate::pattern::{hits, pattern_hits};
use crate::scan::{
    first_index, lemma_first_index, lemma_first_index_is_first, lemma_select_members, select,
};
use crate::text::{
    append_chars, chars_of, contains_colon, has_colon, join_spaced, str_eq, string_of, trim,
    trim_chars, trim_end, trim_start,
};
use crate::words::{DOWN, LEFT, RIGHT, SAME_LINE, UP};
use vstd::prelude::*;

verus! {

/// How far above or below the landmark's line a fragment may start and
/// still count as standing on it (exclusive).
pub const LINE_TOLERANCE: i64 = 10 * UNIT;

/// Where to look from a landmark.
#[derive(Debug, Clone, Copy)]
pub enum Direction {
    Right,
    Left,
    Up,
    Down,
    SameLine,
}

/// The direction that a name stands for, if any.
pub open spec fn direction_named(name: Seq<char>) -> Option<Direction> {
    if name == RIGHT@ {
        Some(Direction::Right)
    } else if name == LEFT@ {
        Some(Direction::Left)
    } else if name == UP@ {
        Some(Direction::Up)
    } else if name == DOWN@ {
        Some(Direction::Down)
    } else if name == SAME_LINE@ {
        Some(Direction::SameLine)
    } else {
        None
    }
}

/// Whether `f` lies in the corridor that leads from `anchor` in the given
/// direction and is `reach` long. Sideways the corridor keeps to the
/// anchor's line; upward and downward it keeps within half the reach of the
/// anchor's left edge.
pub open spec fn in_corridor(dir: Direction, f: Fragment, anchor: Fragment, reach: int) -> bool {
    match dir {
        Direction::Right => gap(f.y, anchor.y) < LINE_TOLERANCE && f.x > anchor.x && f.x
            - anchor.x < reach,
        Direction::Left => gap(f.y, anchor.y) < LINE_TOLERANCE && f.x < anchor.x && anchor.x
            - f.x < reach,
        Direction::Up => 2 * gap(f.x, anchor.x) < reach && f.y > anchor.y && f.y - anchor.y
            < reach,
        Direction::Down => 2 * gap(f.x, anchor.x) < reach && f.y < anchor.y && anchor.y - f.y
            < reach,
        Direction::SameLine => gap(f.y, anchor.y) < LINE_TOLERANCE && gap(f.x, anchor.x)
            < reach,
    }
}

/// The fragments among the first `upto` that lie in the corridor, the one at
/// position `anchor` left out, in their given order.
pub open spec fn candidates(
    frags: Seq<Fragment>,
    anchor: int,
    dir: Direction,
    reach: int,
    upto: int,
) -> Seq<Fragment>
    decreases upto,
{
    if upto <= 0 {
        Seq::empty()
    } else {
        let before = candidates(frags, anchor, dir, reach, upto - 1);
        let f = frags[upto - 1];
        if upto - 1 != anchor && in_corridor(dir, f, frags[anchor], reach) {
            before.push(f)
        } else {
            before
        }
    }
}

/// The square of the distance between the top-left corners.
pub open spec fn squared_distance(f: Fragment, anchor: Fragment) -> int {
    (f.x - anchor.x) * (f.x - anchor.x) + (f.y - anchor.y) * (f.y - anchor.y)
}

/// The key by which fragments are read in a direction: rightward and along
/// the line by ascending `x`, leftward by descending `x`, upward by
/// descending `y`, downward by ascending `y`.
pub open spec fn reading_key(dir: Direction, f: Fragment) -> int {
    match dir {
        Direction::Right => f.x,
        Direction::SameLine => f.x,
        Direction::Left => -f.x,
        Direction::Up => -f.y,
        Direction::Down => f.y,
    }
}

/// The squared distances of the fragments from the anchor.
pub open spec fn distances(found: Seq<Fragment>, anchor: Fragment) -> Seq<int> {
    Seq::new(found.len(), |i: int| squared_distance(found[i], anchor))
}

/// The reading keys of the fragments.
pub open spec fn reading_keys(dir: Direction, found: Seq<Fragment>) -> Seq<int> {
    Seq::new(found.len(), |i: int| reading_key(dir, found[i]))
}

/// The fragments in reading order: by reading key, fragments with equal
/// keys by their distance from the anchor, and fragments equal in both in
/// their given order.
pub open spec fn in_reading_order(found: Seq<Fragment>, anchor: Fragment, dir: Direction) -> Seq<
    Fragment,
> {
    let nearest_first = sorted_by_keys(found, distances(found, anchor));
    sorted_by_keys(nearest_first, reading_keys(dir, nearest_first))
}

/// Accepts the fragments whose text the pattern matches.
pub open spec fn matching(pattern: Seq<char>) -> spec_fn(Fragment) -> bool {
    |f: Fragment| pattern_hits(pattern, f.text)
}

/// Accepts the fragments whose text holds no colon.
pub open spec fn without_colon() -> spec_fn(Fragment) -> bool {
    |f: Fragment| !has_colon(f.text)
}

/// The texts of the fragments.
pub open spec fn texts_of(found: Seq<Fragment>) -> Seq<Seq<char>> {
    Seq::new(found.len(), |i: int| found[i].text)
}

/// The text around the fragment at position `anchor`. The fragments in the
/// corridor are read in reading order; those with a colon are further labels
/// and are passed over. The rest is joined with single spaces and trimmed.
/// Where `anchor` is no position of the page, the text is empty.
pub open spec fn text_around(frags: Seq<Fragment>, anchor: int, dir: Direction, reach: int) -> Seq<
    char,
> {
    if 0 <= anchor < frags.len() {
        trim(
            join_spaced(
                texts_of(
                    select(
                        in_reading_order(
                            candidates(frags, anchor, dir, reach, frags.len() as int),
                            frags[anchor],
                            dir,
                        ),
                        without_colon(),
                    ),
                ),
            ),
        )
    } else {
        Seq::empty()
    }
}

/// The text next to a landmark: the text around the first fragment that
/// `pattern` matches, in the direction that `direction` names. Without a
/// landmark, and for a direction without a name, the text is empty.
pub open spec fn nearby_text(
    frags: Seq<Fragment>,
    pattern: Seq<char>,
    direction: Seq<char>,
    reach: int,
) -> Seq<char> {
    match direction_named(direction) {
        None => Seq::empty(),
        Some(dir) => text_around(frags, first_index(frags, matching(pattern)), dir, reach),
    }
}

/// Joining parts without a colon gives a text without a colon.
pub proof fn lemma_join_keeps_colons_out(parts: Seq<Seq<char>>)
    requires
        forall|i: int| 0 <= i < parts.len() ==> !has_colon(#[trigger] parts[i]),
    ensures
        !has_colon(join_spaced(parts)),
    decreases parts.len(),
{
    if parts.len() > 1 {
        let front = parts.drop_last();
        assert forall|i: int| 0 <= i < front.len() implies !has_colon(#[trigger] front[i]) by {
            assert(front[i] == parts[i]);
        }
        lemma_join_keeps_colons_out(front);
        let joined = join_spaced(parts);
        let head = join_spaced(front);
        let last = parts.last();
        assert(!has_colon(last));
        assert forall|k: int| 0 <= k < joined.len() implies joined[k] != ':' && joined[k]
            != '：' by {
            if k < head.len() {
                assert(joined[k] == head[k]);
                assert(head.contains(head[k]));
            } else if k == head.len() {
                assert(joined[k] == ' ');
            } else {
                assert(joined[k] == last[k - head.len() - 1]);
                assert(last.contains(last[k - head.len() - 1]));
            }
        }
    } else if parts.len() == 1 {
        assert(!has_colon(parts[0]));
    }
}

/// Every character of a trimmed text stands in the text.
pub proof fn lemma_trim_is_part(s: Seq<char>, c: char)
    requires
        trim(s).contains(c),
    ensures
        s.contains(c),
{
    lemma_trim_start_is_part(s, c);
    lemma_trim_end_is_part(trim_start(s), c);
}

/// Every character that is left after trimming the front stands in the text.
pub proof fn lemma_trim_start_is_part(s: Seq<char>, c: char)
    ensures
        trim_start(s).contains(c) ==> s.contains(c),
    decreases s.len(),
{
    if s.len() > 0 && crate::text::is_whitespace(s[0]) {
        lemma_trim_start_is_part(s.drop_first(), c);
        if s.drop_first().contains(c) {
            let i = choose|i: int| 0 <= i < s.drop_first().len() && s.drop_first()[i] == c;
            assert(s[i + 1] == c);
        }
    }
}

/// Every character that is left after trimming the back stands in the text.
pub proof fn lemma_trim_end_is_part(s: Seq<char>, c: char)
    ensures
        trim_end(s).contains(c) ==> s.contains(c),
    decreases s.len(),
{
    if s.len() > 0 && crate::text::is_whitespace(s.last()) {
        lemma_trim_end_is_part(s.drop_last(), c);
        if s.drop_last().contains(c) {
            let i = choose|i: int| 0 <= i < s.drop_last().len() && s.drop_last()[i] == c;
            assert(s[i] == c);
        }
    }
}

/// The text around a fragment never holds a colon.
pub proof fn lemma_text_around_has_no_colon(
    frags: Seq<Fragment>,
    anchor: int,
    dir: Direction,
    reach: int,
)
    ensures
        !has_colon(text_around(frags, anchor, dir, reach)),
{
    let out = text_around(frags, anchor, dir, reach);
    if 0 <= anchor < frags.len() {
        let read = in_reading_order(
            candidates(frags, anchor, dir, reach, frags.len() as int),
            frags[anchor],
            dir,
        );
        let kept = select(read, without_colon());
        let parts = texts_of(kept);
        lemma_select_members(read, without_colon());
        assert forall|i: int| 0 <= i < parts.len() implies !has_colon(#[trigger] parts[i]) by {
            assert(without_colon()(kept[i]));
        }
        lemma_join_keeps_colons_out(parts);
        if out.contains(':') {
            lemma_trim_is_part(join_spaced(parts), ':');
        }
        if out.contains('：') {
            lemma_trim_is_part(join_spaced(parts), '：');
        }
    }
}

/// The text next to a landmark never holds a colon.
pub proof fn lemma_nearby_text_has_no_colon(
    frags: Seq<Fragment>,
    pattern: Seq<char>,
    direction: Seq<char>,
    reach: int,
)
    ensures
        !has_colon(nearby_text(frags, pattern, direction, reach)),
{
    if direction_named(direction) is Some {
        lemma_text_around_has_no_colon(
            frags,
            first_index(frags, matching(pattern)),
            direction_named(direction).unwrap(),
            reach,
        );
    }
}

/// Gives each fragment the square of its distance from `anchor`.
pub open spec fn distance_from(anchor: Fragment) -> spec_fn(Fragment) -> int {
    |f: Fragment| squared_distance(f, anchor)
}

/// Gives each fragment its reading key in direction `dir`.
pub open spec fn reading_key_in(dir: Direction) -> spec_fn(Fragment) -> int {
    |f: Fragment| reading_key(dir, f)
}

/// Reading order is order by distance put in order by reading key.
pub proof fn lemma_reading_order(found: Seq<Fragment>, anchor: Fragment, dir: Direction)
    ensures
        in_reading_order(found, anchor, dir) == sorted_by(
            sorted_by(found, distance_from(anchor)),
            reading_key_in(dir),
        ),
{
    assert(distances(found, anchor) =~= keys_of(found, distance_from(anchor)));
    let nearest_first = sorted_by(found, distance_from(anchor));
    assert(reading_keys(dir, nearest_first) =~= keys_of(nearest_first, reading_key_in(dir)));
}

/// The fragments without a colon among those in reading order are the
/// fragments without a colon, in reading order.
pub proof fn lemma_colons_leave_reading_order(found: Seq<Fragment>, anchor: Fragment, dir: Direction)
    ensures
        select(in_reading_order(found, anchor, dir), without_colon()) == in_reading_order(
            select(found, without_colon()),
            anchor,
            dir,
        ),
{
    lemma_reading_order(found, anchor, dir);
    lemma_reading_order(select(found, without_colon()), anchor, dir);
    lemma_select_sorted(sorted_by(found, distance_from(anchor)), reading_key_in(dir), without_colon());
    lemma_select_sorted(found, distance_from(anchor), without_colon());
}

/// The candidates among the first `upto` fragments do not depend on what
/// follows them.
pub proof fn lemma_candidates_ignore_what_follows(
    frags: Seq<Fragment>,
    g: Fragment,
    anchor: int,
    dir: Direction,
    reach: int,
    upto: int,
)
    requires
        0 <= anchor < frags.len(),
        upto <= frags.len(),
    ensures
        candidates(frags.push(g), anchor, dir, reach, upto) == candidates(
            frags,
            anchor,
            dir,
            reach,
            upto,
        ),
    decreases upto,
{
    if upto > 0 {
        lemma_candidates_ignore_what_follows(frags, g, anchor, dir, reach, upto - 1);
        assert(frags.push(g)[upto - 1] == frags[upto - 1]);
        assert(frags.push(g)[anchor] == frags[anchor]);
    }
}

/// One more fragment with a colon, put behind the others, leaves the text
/// around a fragment as it was.
pub proof fn lemma_colon_fragment_leaves_text_around(
    frags: Seq<Fragment>,
    g: Fragment,
    anchor: int,
    dir: Direction,
    reach: int,
)
    requires
        0 <= anchor < frags.len(),
        has_colon(g.text),
    ensures
        text_around(frags.push(g), anchor, dir, reach) == text_around(frags, anchor, dir, reach),
{
    let more = frags.push(g);
    let n = frags.len() as int;
    let found = candidates(frags, anchor, dir, reach, n);
    let found_more = candidates(more, anchor, dir, reach, n + 1);
    lemma_candidates_ignore_what_follows(frags, g, anchor, dir, reach, n);
    assert(more[anchor] == frags[anchor]);
    assert(more[n] == g);
    assert(select(found_more, without_colon()) == select(found, without_colon())) by {
        if found_more != found {
            assert(found_more == found.push(g));
            assert(found.push(g).drop_last() == found);
        }
    }
    lemma_colons_leave_reading_order(found, frags[anchor], dir);
    lemma_colons_leave_reading_order(found_more, frags[anchor], dir);
}

/// One more fragment with a colon, put behind the others of a page that
/// has the landmark, leaves the text next to the landmark as it was.
pub proof fn lemma_colon_fragment_leaves_nearby_text(
    frags: Seq<Fragment>,
    g: Fragment,
    pattern: Seq<char>,
    direction: Seq<char>,
    reach: int,
)
    requires
        first_index(frags, matching(pattern)) < frags.len(),
        has_colon(g.text),
    ensures
        nearby_text(frags.push(g), pattern, direction, reach) == nearby_text(
            frags,
            pattern,
            direction,
            reach,
        ),
{
    let at = first_index(frags, matching(pattern));
    lemma_first_index_is_first(frags, matching(pattern));
    assert(frags.push(g).drop_last() == frags);
    assert(first_index(frags.push(g), matching(pattern)) == at);
    if direction_named(direction) is Some {
        lemma_colon_fragment_leaves_text_around(
            frags,
            g,
            at,
            direction_named(direction).unwrap(),
            reach,
        );
    }
}

/// The direction that a name stands for, if any.
pub fn direction_of(name: &str) -> (dir: Option<Direction>)
    ensures
        dir == direction_named(name@),
{
    if str_eq(name, RIGHT) {
        Some(Direction::Right)
    } else if str_eq(name, LEFT) {
        Some(Direction::Left)
    } else if str_eq(name, UP) {
        Some(Direction::Up)
    } else if str_eq(name, DOWN) {
        Some(Direction::Down)
    } else if str_eq(name, SAME_LINE) {
        Some(Direction::SameLine)
    } else {
        None
    }
}

/// Whether `f` lies in the corridor that leads from `anchor`.
pub fn lies_in_corridor(dir: Direction, f: &TextItem, anchor: &TextItem, reach: i64) -> (r: bool)
    ensures
        r == in_corridor(dir, f@, anchor@, reach as int),
{
    let dx: i128 = gap_of(f.x, anchor.x);
    let dy: i128 = gap_of(f.y, anchor.y);
    let far: i128 = reach as i128;
    let line: i128 = LINE_TOLERANCE as i128;
    match dir {
        Direction::Right => dy < line && f.x > anchor.x && dx < far,
        Direction::Left => dy < line && f.x < anchor.x && dx < far,
        Direction::Up => 2 * dx < far && f.y > anchor.y && dy < far,
        Direction::Down => 2 * dx < far && f.y < anchor.y && dy < far,
        Direction::SameLine => dy < line && dx < far,
    }
}

/// The square of the distance between a fragment of the corridor and the
/// anchor.
fn distance_key(dir: Direction, f: &TextItem, anchor: &TextItem, reach: i64) -> (d: i128)
    requires
        in_corridor(dir, f@, anchor@, reach as int),
    ensures
        d == squared_distance(f@, anchor@),
{
    let dx: i128 = gap_of(f.x, anchor.x);
    let dy: i128 = gap_of(f.y, anchor.y);
    let ghost bound: int = 0x8000_0000_0000_0000;
    assert(0 <= dx < bound && 0 <= dy < bound);
    assert(dx * dx < bound * bound && dy * dy < bound * bound) by (nonlinear_arith)
        requires
            0 <= dx < bound,
            0 <= dy < bound,
    ;
    assert(bound * bound == 0x4000_0000_0000_0000_0000_0000_0000_0000) by (nonlinear_arith)
        requires
            bound == 0x8000_0000_0000_0000,
    ;
    assert(dx * dx == (f@.x - anchor@.x) * (f@.x - anchor@.x)) by (nonlinear_arith)
        requires
            dx == f@.x - anchor@.x || dx == anchor@.x - f@.x,
    ;
    assert(dy * dy == (f@.y - anchor@.y) * (f@.y - anchor@.y)) by (nonlinear_arith)
        requires
            dy == f@.y - anchor@.y || dy == anchor@.y - f@.y,
    ;
    dx * dx + dy * dy
}

/// The key by which a fragment is read in a direction.
fn reading_key_of(dir: Direction, f: &TextItem) -> (k: i128)
    ensures
        k == reading_key(dir, f@),
{
    match dir {
        Direction::Right => f.x as i128,
        Direction::SameLine => f.x as i128,
        Direction::Left => -(f.x as i128),
        Direction::Up => -(f.y as i128),
        Direction::Down => f.y as i128,
    }
}

/// The position of the first item whose text the pattern matches, or the
/// number of items if it matches none.
pub fn find_landmark(text_items: &[TextItem], pattern: &str) -> (at: usize)
    ensures
        at == first_index(fragments(text_items@), matching(pattern@)),
        at <= text_items.len(),
{
    let ghost frags = fragments(text_items@);
    let mut i: usize = 0;
    while i < text_items.len()
        invariant
            i <= text_items.len(),
            frags == fragments(text_items@),
            forall|j: int| 0 <= j < i ==> !matching(pattern@)(#[trigger] frags[j]),
        decreases text_items.len() - i,
    {
        if hits(pattern, text_items[i].text.as_str()) {
            proof {
                lemma_first_index(frags, matching(pattern@), i as int);
            }
            return i;
        }
        i += 1;
    }
    proof {
        lemma_first_index(frags, matching(pattern@), i as int);
    }
    i
}

/// The items in reading order.
fn read_in_order<'a>(
    found: &Vec<&'a TextItem>,
    distances_found: &Vec<i128>,
    anchor: &TextItem,
    dir: Direction,
) -> (read: Vec<&'a TextItem>)
    requires
        found.len() == distances_found.len(),
        key_ints(distances_found@) == distances(fragments_of_refs(found@), anchor@),
    ensures
        fragments_of_refs(read@) == in_reading_order(fragments_of_refs(found@), anchor@, dir),
{
    let ghost frags = fragments_of_refs(found@);
    let nearest_first = sort_by_keys(found, distances_found);
    proof {
        lemma_ranking_is_permutation(distances(frags, anchor@));
        assert(fragments_of_refs(nearest_first@) =~= sorted_by_keys(
            frags,
            distances(frags, anchor@),
        ));
    }
    let ghost near = fragments_of_refs(nearest_first@);
    let mut keys: Vec<i128> = Vec::new();
    let mut i: usize = 0;
    while i < nearest_first.len()
        invariant
            i <= nearest_first.len(),
            keys.len() == i,
            forall|k: int| 0 <= k < i ==> keys[k] as int == reading_key(dir, nearest_first[k]@),
        decreases nearest_first.len() - i,
    {
        keys.push(reading_key_of(dir, nearest_first[i]));
        i += 1;
    }
    let read = sort_by_keys(&nearest_first, &keys);
    proof {
        assert(key_ints(keys@) =~= reading_keys(dir, near));
        lemma_ranking_is_permutation(reading_keys(dir, near));
        assert(fragments_of_refs(read@) =~= sorted_by_keys(near, reading_keys(dir, near)));
    }
    read
}

/// The texts of the items that hold no colon, joined with single spaces.
fn join_texts(read: &Vec<&TextItem>) -> (joined: Vec<char>)
    ensures
        joined@ == join_spaced(texts_of(select(fragments_of_refs(read@), without_colon()))),
{
    let ghost frags = fragments_of_refs(read@);
    let mut joined: Vec<char> = Vec::new();
    let mut first: bool = true;
    let mut i: usize = 0;
    while i < read.len()
        invariant
            i <= read.len(),
            frags == fragments_of_refs(read@),
            first == (select(frags.take(i as int), without_colon()).len() == 0),
            joined@ == join_spaced(texts_of(select(frags.take(i as int), without_colon()))),
        decreases read.len() - i,
    {
        let text: &str = read[i].text.as_str();
        proof {
            crate::scan::lemma_select_step(frags, without_colon(), i as int);
        }
        if !contains_colon(text) {
            let ghost before = select(frags.take(i as int), without_colon());
            let ghost after = before.push(frags[i as int]);
            if !first {
                joined.push(' ');
            }
            let chars = chars_of(text);
            append_chars(&mut joined, &chars);
            proof {
                assert(texts_of(after).drop_last() =~= texts_of(before));
                assert(texts_of(after).last() == text@);
                if before.len() == 0 {
                    assert(joined@ =~= text@);
                } else {
                    assert(joined@ =~= join_spaced(texts_of(before)) + seq![' '] + text@);
                }
            }
            first = false;
        }
        i += 1;
    }
    assert(frags.take(read.len() as int) == frags);
    joined
}

/// Reads the text around the item at position `at`: the texts of the items
/// in the corridor that leads from it in direction `dir` and is
/// `max_distance` long, in reading order, those with a colon left out,
/// joined with single spaces and trimmed. Where `at` is no position of the
/// page, the text is empty.
pub fn nearby_text_at(text_items: &[TextItem], at: usize, dir: Direction, max_distance: i64) -> (text:
    String)
    ensures
        text@ == text_around(fragments(text_items@), at as int, dir, max_distance as int),
        !has_colon(text@),
{
    let ghost frags = fragments(text_items@);
    proof {
        lemma_text_around_has_no_colon(frags, at as int, dir, max_distance as int);
    }
    if at >= text_items.len() {
        return String::new();
    }
    let anchor: &TextItem = &text_items[at];
    let mut found: Vec<&TextItem> = Vec::new();
    let mut keys: Vec<i128> = Vec::new();
    let mut i: usize = 0;
    while i < text_items.len()
        invariant
            i <= text_items.len(),
            at < text_items.len(),
            frags == fragments(text_items@),
            anchor@ == frags[at as int],
            found.len() == keys.len(),
            fragments_of_refs(found@) == candidates(
                frags,
                at as int,
                dir,
                max_distance as int,
                i as int,
            ),
            key_ints(keys@) == distances(fragments_of_refs(found@), anchor@),
        decreases text_items.len() - i,
    {
        let item: &TextItem = &text_items[i];
        if i != at && lies_in_corridor(dir, item, anchor, max_distance) {
            let ghost before = fragments_of_refs(found@);
            let ghost keys_before = key_ints(keys@);
            keys.push(distance_key(dir, item, anchor, max_distance));
            found.push(item);
            proof {
                assert(fragments_of_refs(found@) =~= before.push(item@));
                assert(key_ints(keys@) =~= keys_before.push(squared_distance(item@, anchor@)));
                assert(key_ints(keys@) =~= distances(fragments_of_refs(found@), anchor@));
            }
        }
        i += 1;
    }
    let read = read_in_order(&found, &keys, anchor, dir);
    let joined = join_texts(&read);
    let trimmed = trim_chars(&joined);
    string_of(&trimmed)
}

/// Reads the text next to a landmark. The landmark is the first item whose
/// text `reference_text` matches; `direction` is one of `right`, `left`,
/// `up`, `down` and `same-line`; `max_distance` bounds the corridor. Items
/// with a colon are passed over; the rest is joined in reading order with
/// single spaces and trimmed. Without a landmark, and for any other
/// direction, the text is empty.
pub fn extract_nearby_text(
    text_items: &[TextItem],
    reference_text: &str,
    direction: &str,
    max_distance: i64,
) -> (text: String)
    ensures
        text@ == nearby_text(
            fragments(text_items@),
            reference_text@,
            direction@,
            max_distance as int,
        ),
        !has_colon(text@),
{
    proof {
        lemma_nearby_text_has_no_colon(
            fragments(text_items@),
            reference_text@,
            direction@,
            max_distance as int,
        );
    }
    match direction_of(direction) {
        Some(dir) => {
            let at = find_landmark(text_items, reference_text);
            nearby_text_at(text_items, at, dir, max_distance)
        },
        None => String::new(),
    }
}

} // verus!
