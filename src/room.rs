//! Reading a room out of what the adventure prints after a move: the
//! description, the items listed under "Things of interest here:", and the
//! exits listed under "There are N exits:".
use vstd::prelude::*;
use vstd::string::StrSliceExecFns;
use vstd::utf8::encode_utf8;
use crate::input::NEWLINE;

verus! {

/// Carriage return, dropped before a newline.
pub const CR: u8 = 13;

/// A compass direction the adventure understands.
#[derive(Debug, Clone, Copy, PartialEq, Eq, Structural)]
pub enum Direction {
    North,
    East,
    South,
    West,
}

/// A way out of a room: a compass direction, or a named passage.
#[derive(Debug, Clone, PartialEq, Eq)]
pub enum Exit {
    Dir(Direction),
    Other(String),
}

/// A room as the adventure describes it.
#[derive(Debug, Clone, PartialEq, Eq)]
pub struct Room {
    pub description: Vec<String>,
    pub items: Vec<String>,
    pub exits: Vec<Exit>,
}

/// The characters of `bytes`, one per byte.
pub open spec fn latin1(bytes: Seq<u8>) -> Seq<char> {
    bytes.map_values(|b: u8| b as char)
}

/// `l` holds `w` from position `i` on.
pub open spec fn word_at(l: Seq<u8>, i: int, w: Seq<u8>) -> bool {
    0 <= i && i + w.len() <= l.len() && l.subrange(i, i + w.len()) == w
}

pub open spec fn drop_cr(l: Seq<u8>) -> Seq<u8> {
    if l.len() > 0 && l.last() == CR {
        l.drop_last()
    } else {
        l
    }
}

pub open spec fn add_line(ls: Seq<Seq<u8>>, l: Seq<u8>) -> Seq<Seq<u8>> {
    if l.len() == 0 {
        ls
    } else {
        ls.push(l)
    }
}

/// The non-empty lines completed in `s`, and the unfinished last line.
pub open spec fn scan_lines(s: Seq<u8>) -> (Seq<Seq<u8>>, Seq<u8>)
    decreases s.len(),
{
    if s.len() == 0 {
        (Seq::empty(), Seq::empty())
    } else {
        let (ls, cur) = scan_lines(s.drop_last());
        if s.last() == NEWLINE {
            (add_line(ls, drop_cr(cur)), Seq::empty())
        } else {
            (ls, cur.push(s.last()))
        }
    }
}

/// The non-empty lines of `s`, without their line endings.
pub open spec fn text_lines(s: Seq<u8>) -> Seq<Seq<u8>> {
    add_line(scan_lines(s).0, scan_lines(s).1)
}

pub open spec fn is_digit(b: u8) -> bool {
    48u8 <= b <= 57u8
}

/// From position `j` on, `l` holds one or more ASCII digits and then " exit".
pub open spec fn count_then_exit(l: Seq<u8>, j: int) -> bool {
    exists|k: int|
        j < k && (forall|m: int| j <= m < k ==> is_digit(#[trigger] l[m])) && word_at(
            l,
            k,
            seq![32u8, 101u8, 120u8, 105u8, 116u8],
        )
}

/// `l` holds "There are N exit" or "There is N exit" from position `i` on.
pub open spec fn exit_count_at(l: Seq<u8>, i: int) -> bool {
    ||| word_at(l, i, there_are()) && count_then_exit(l, i + 10)
    ||| word_at(l, i, there_is()) && count_then_exit(l, i + 9)
}

/// "There are ".
pub open spec fn there_are() -> Seq<u8> {
    seq![84u8, 104u8, 101u8, 114u8, 101u8, 32u8, 97u8, 114u8, 101u8, 32u8]
}

/// "There is ".
pub open spec fn there_is() -> Seq<u8> {
    seq![84u8, 104u8, 101u8, 114u8, 101u8, 32u8, 105u8, 115u8, 32u8]
}

/// The line that opens the list of items: "Things of interest here:".
pub open spec fn items_header() -> Seq<u8> {
    seq![
        84u8, 104u8, 105u8, 110u8, 103u8, 115u8, 32u8, 111u8, 102u8, 32u8, 105u8, 110u8, 116u8, 101u8, 114u8,
        101u8, 115u8, 116u8, 32u8, 104u8, 101u8, 114u8, 101u8, 58u8,
    ]
}

/// A line that opens a section: the list of items, or the count of exits.
pub open spec fn is_separator(l: Seq<u8>) -> bool {
    l == items_header() || exists|i: int| exit_count_at(l, i)
}

/// The lines split into sections at each separator line, which belongs to
/// none of them.
pub open spec fn sections(ls: Seq<Seq<u8>>) -> Seq<Seq<Seq<u8>>>
    decreases ls.len(),
{
    if ls.len() == 0 {
        seq![Seq::empty()]
    } else {
        let g = sections(ls.drop_last());
        if is_separator(ls.last()) {
            g.push(Seq::empty())
        } else {
            g.update(g.len() - 1, g.last().push(ls.last()))
        }
    }
}

/// The entries of a list: its lines that start with "- ", without those
/// two characters.
pub open spec fn listed(g: Seq<Seq<u8>>) -> Seq<Seq<u8>>
    decreases g.len(),
{
    if g.len() == 0 {
        Seq::empty()
    } else {
        let r = listed(g.drop_last());
        let l = g.last();
        if word_at(l, 0, seq![45u8, 32u8]) {
            r.push(l.subrange(2, l.len() as int))
        } else {
            r
        }
    }
}

/// "north", "east", "south" or "west".
pub open spec fn direction_name(d: Direction) -> Seq<u8> {
    match d {
        Direction::North => seq![110u8, 111u8, 114u8, 116u8, 104u8],
        Direction::East => seq![101u8, 97u8, 115u8, 116u8],
        Direction::South => seq![115u8, 111u8, 117u8, 116u8, 104u8],
        Direction::West => seq![119u8, 101u8, 115u8, 116u8],
    }
}

/// `e` is the exit that the text `l` names.
pub open spec fn exit_named(e: Exit, l: Seq<u8>) -> bool {
    match e {
        Exit::Dir(d) => l == direction_name(d),
        Exit::Other(s) => s@ == latin1(l) && forall|d: Direction| l != direction_name(d),
    }
}

/// `v` holds the texts `ls`, in order.
pub open spec fn strings_are(v: Seq<String>, ls: Seq<Seq<u8>>) -> bool {
    v.len() == ls.len() && forall|i: int| 0 <= i < v.len() ==> (#[trigger] v[i])@ == latin1(ls[i])
}

/// `v` holds the exits that `ls` name, in order.
pub open spec fn exits_are(v: Seq<Exit>, ls: Seq<Seq<u8>>) -> bool {
    v.len() == ls.len() && forall|i: int| 0 <= i < v.len() ==> exit_named(#[trigger] v[i], ls[i])
}

/// Relies on std's `String: FromIterator<char>`: collecting the bytes, each
/// taken as the character with that code, gives those characters in order.
#[verifier::external_body]
fn latin1_string(bytes: &[u8]) -> (r: String)
    ensures
        r@ == latin1(bytes@),
{
    bytes.iter().map(|b| *b as char).collect()
}

/// Whether `l` holds `w` from position `i` on.
fn has_word_at(l: &[u8], i: usize, w: &[u8]) -> (r: bool)
    ensures
        r == word_at(l@, i as int, w@),
{
    if i > l.len() || w.len() > l.len() - i {
        return false;
    }
    let mut k: usize = 0;
    while k < w.len()
        invariant
            i + w@.len() <= l@.len(),
            l@.len() <= usize::MAX,
            k <= w@.len(),
            forall|m: int| 0 <= m < k ==> l@[i + m] == w@[m],
        decreases w@.len() - k,
    {
        if l[i + k] != w[k] {
            assert(l@.subrange(i as int, i + w@.len())[k as int] != w@[k as int]);
            return false;
        }
        k = k + 1;
    }
    assert(l@.subrange(i as int, i + w@.len()) =~= w@);
    true
}

/// Whether `l` holds one or more digits and then " exit" from `j` on.
fn has_count_then_exit(l: &[u8], j: usize) -> (r: bool)
    requires
        j <= l@.len(),
    ensures
        r == count_then_exit(l@, j as int),
{
    let exit = vec![32u8, 101u8, 120u8, 105u8, 116u8];
    let mut k: usize = j;
    while k < l.len() && 48u8 <= l[k] && l[k] <= 57u8
        invariant
            j <= k <= l@.len(),
            forall|m: int| j <= m < k ==> is_digit(#[trigger] l@[m]),
        decreases l@.len() - k,
    {
        k = k + 1;
    }
    let r = k > j && has_word_at(l, k, exit.as_slice());
    proof {
        if !r {
            assert forall|k2: int|
                j < k2 && (forall|m: int| j <= m < k2 ==> is_digit(#[trigger] l@[m])) implies !word_at(
                l@,
                k2,
                seq![32u8, 101u8, 120u8, 105u8, 116u8],
            ) by {
                if word_at(l@, k2, seq![32u8, 101u8, 120u8, 105u8, 116u8]) {
                    assert(l@.subrange(k2, k2 + 5)[0] == 32u8);
                    assert(l@[k2] == 32u8);
                    if k2 < k {
                        assert(is_digit(l@[k2]));
                    } else if k2 > k {
                        assert(is_digit(l@[k as int]));
                    }
                }
            }
        }
    }
    r
}

/// Whether `l` holds "There are N exit" or "There is N exit" anywhere.
fn mentions_exit_count(l: &[u8]) -> (r: bool)
    ensures
        r == exists|i: int| exit_count_at(l@, i),
{
    let are = vec![84u8, 104u8, 101u8, 114u8, 101u8, 32u8, 97u8, 114u8, 101u8, 32u8];
    let is = vec![84u8, 104u8, 101u8, 114u8, 101u8, 32u8, 105u8, 115u8, 32u8];
    let mut i: usize = 0;
    while i < l.len()
        invariant
            i <= l@.len(),
            are@ == there_are(),
            is@ == there_is(),
            forall|i2: int| 0 <= i2 < i ==> !exit_count_at(l@, i2),
        decreases l@.len() - i,
    {
        if (has_word_at(l, i, are.as_slice()) && has_count_then_exit(l, i + 10)) || (has_word_at(
            l,
            i,
            is.as_slice(),
        ) && has_count_then_exit(l, i + 9)) {
            assert(exit_count_at(l@, i as int));
            return true;
        }
        i = i + 1;
    }
    assert forall|i2: int| !exit_count_at(l@, i2) by {
        if i2 >= l@.len() || i2 < 0 {
            assert(!word_at(l@, i2, there_are()));
            assert(!word_at(l@, i2, there_is()));
        }
    }
    false
}

/// Whether `l` opens a section.
fn opens_section(l: &[u8]) -> (r: bool)
    ensures
        r == is_separator(l@),
{
    let header = vec![
        84u8, 104u8, 105u8, 110u8, 103u8, 115u8, 32u8, 111u8, 102u8, 32u8, 105u8, 110u8, 116u8,
        101u8, 114u8, 101u8, 115u8, 116u8, 32u8, 104u8, 101u8, 114u8, 101u8, 58u8,
    ];
    let is_header = l.len() == header.len() && has_word_at(l, 0, header.as_slice());
    proof {
        if l@.len() == header@.len() {
            assert(l@.subrange(0, l@.len() as int) =~= l@);
        }
    }
    is_header || mentions_exit_count(l)
}

/// The views of `v`'s elements.
pub open spec fn views(v: Seq<Vec<u8>>) -> Seq<Seq<u8>> {
    v.map_values(|x: Vec<u8>| x@)
}

/// Splits `s` into its non-empty lines, without their line endings.
fn split_lines(s: &[u8]) -> (r: Vec<Vec<u8>>)
    ensures
        views(r@) == text_lines(s@),
{
    let mut lines: Vec<Vec<u8>> = Vec::new();
    let mut cur: Vec<u8> = Vec::new();
    let mut i: usize = 0;
    while i < s.len()
        invariant
            i <= s@.len(),
            (views(lines@), cur@) == scan_lines(s@.subrange(0, i as int)),
        decreases s@.len() - i,
    {
        let ghost before = views(lines@);
        assert(s@.subrange(0, i + 1).drop_last() =~= s@.subrange(0, i as int));
        let b = s[i];
        if b == NEWLINE {
            if cur.len() > 0 && cur[cur.len() - 1] == CR {
                cur.pop();
            }
            if cur.len() > 0 {
                lines.push(cur);
                assert(views(lines@) =~= before.push(cur@));
            }
            cur = Vec::new();
        } else {
            cur.push(b);
        }
        i = i + 1;
    }
    assert(s@.subrange(0, i as int) =~= s@);
    if cur.len() > 0 {
        let ghost before = views(lines@);
        lines.push(cur);
        assert(views(lines@) =~= before.push(cur@));
    }
    lines
}

/// The views of the groups of lines in `v`.
pub open spec fn group_views(v: Seq<Vec<Vec<u8>>>) -> Seq<Seq<Seq<u8>>> {
    v.map_values(|g: Vec<Vec<u8>>| views(g@))
}

/// Splits `lines` into sections at each separator line.
fn split_sections(lines: &Vec<Vec<u8>>) -> (r: Vec<Vec<Vec<u8>>>)
    ensures
        group_views(r@) == sections(views(lines@)),
{
    let mut done: Vec<Vec<Vec<u8>>> = Vec::new();
    let mut cur: Vec<Vec<u8>> = Vec::new();
    let mut i: usize = 0;
    assert(views(lines@).subrange(0, 0) =~= Seq::<Seq<u8>>::empty());
    assert(views(cur@) =~= Seq::<Seq<u8>>::empty());
    assert(group_views(done@).push(views(cur@)) =~= seq![Seq::<Seq<u8>>::empty()]);
    while i < lines.len()
        invariant
            i <= lines@.len(),
            sections(views(lines@).subrange(0, i as int)) == group_views(done@).push(views(cur@)),
        decreases lines@.len() - i,
    {
        let ghost g = group_views(done@).push(views(cur@));
        let ghost prev_done = group_views(done@);
        let ghost prev_cur = views(cur@);
        let line = &lines[i];
        assert(views(lines@).subrange(0, i + 1).drop_last() =~= views(lines@).subrange(0, i as int));
        assert(views(lines@).subrange(0, i + 1).last() == line@);
        if opens_section(line.as_slice()) {
            done.push(cur);
            cur = Vec::new();
            assert(group_views(done@) =~= prev_done.push(prev_cur));
            assert(views(cur@) =~= Seq::<Seq<u8>>::empty());
        } else {
            cur.push(vstd::slice::slice_to_vec(line.as_slice()));
            assert(views(cur@) =~= prev_cur.push(line@));
            assert(g.update(g.len() - 1, g.last().push(line@)) =~= prev_done.push(views(cur@)));
        }
        i = i + 1;
    }
    assert(views(lines@).subrange(0, i as int) =~= views(lines@));
    let ghost prev_done = group_views(done@);
    done.push(cur);
    assert(group_views(done@) =~= prev_done.push(views(cur@)));
    done
}

/// The entries of the list `g`.
fn list_entries(g: &Vec<Vec<u8>>) -> (r: Vec<Vec<u8>>)
    ensures
        views(r@) == listed(views(g@)),
{
    let dash = vec![45u8, 32u8];
    let mut r: Vec<Vec<u8>> = Vec::new();
    let mut i: usize = 0;
    while i < g.len()
        invariant
            i <= g@.len(),
            dash@ == seq![45u8, 32u8],
            views(r@) == listed(views(g@).subrange(0, i as int)),
        decreases g@.len() - i,
    {
        let ghost prev = views(r@);
        let line = &g[i];
        assert(views(g@).subrange(0, i + 1).drop_last() =~= views(g@).subrange(0, i as int));
        assert(views(g@).subrange(0, i + 1).last() == line@);
        if has_word_at(line.as_slice(), 0, dash.as_slice()) {
            let entry = vstd::slice::slice_subrange(line.as_slice(), 2, line.len());
            r.push(vstd::slice::slice_to_vec(entry));
            assert(views(r@) =~= prev.push(line@.subrange(2, line@.len() as int)));
        }
        i = i + 1;
    }
    assert(views(g@).subrange(0, i as int) =~= views(g@));
    r
}

/// The texts `ls` as strings.
fn to_strings(ls: &Vec<Vec<u8>>) -> (r: Vec<String>)
    ensures
        strings_are(r@, views(ls@)),
{
    let mut r: Vec<String> = Vec::new();
    let mut i: usize = 0;
    while i < ls.len()
        invariant
            i <= ls@.len(),
            r@.len() == i,
            forall|k: int| 0 <= k < i ==> (#[trigger] r@[k])@ == latin1(ls@[k]@),
        decreases ls@.len() - i,
    {
        r.push(latin1_string(ls[i].as_slice()));
        i = i + 1;
    }
    r
}

impl Direction {
    /// The direction named `text`, if any.
    pub fn parse(text: &[u8]) -> (r: Option<Direction>)
        ensures
            r is Some ==> direction_name(r->Some_0) == text@,
            r is None ==> forall|d: Direction| text@ != direction_name(d),
    {
        let names = [
            (Direction::North, vec![110u8, 111u8, 114u8, 116u8, 104u8]),
            (Direction::East, vec![101u8, 97u8, 115u8, 116u8]),
            (Direction::South, vec![115u8, 111u8, 117u8, 116u8, 104u8]),
            (Direction::West, vec![119u8, 101u8, 115u8, 116u8]),
        ];
        let mut i: usize = 0;
        while i < 4
            invariant
                i <= 4,
                forall|k: int| 0 <= k < 4 ==> names@[k].1@ == direction_name(#[trigger] names@[k].0),
                forall|k: int| 0 <= k < i ==> text@ != direction_name(#[trigger] names@[k].0),
            decreases 4 - i,
        {
            let (d, name) = &names[i];
            assert(text@.subrange(0, text@.len() as int) =~= text@);
            if text.len() == name.len() && has_word_at(text, 0, name.as_slice()) {
                return Some(*d);
            }
            i = i + 1;
        }
        assert forall|d: Direction| text@ != direction_name(d) by {
            match d {
                Direction::North => assert(names@[0].0 == d),
                Direction::East => assert(names@[1].0 == d),
                Direction::South => assert(names@[2].0 == d),
                Direction::West => assert(names@[3].0 == d),
            }
        }
        None
    }
}

impl Exit {
    /// The exit that `text` names: a direction, or else a named passage.
    pub fn parse(text: &[u8]) -> (r: Exit)
        ensures
            exit_named(r, text@),
    {
        match Direction::parse(text) {
            Some(d) => Exit::Dir(d),
            None => Exit::Other(latin1_string(text)),
        }
    }
}

/// The texts `ls` as exits.
fn to_exits(ls: &Vec<Vec<u8>>) -> (r: Vec<Exit>)
    ensures
        exits_are(r@, views(ls@)),
{
    let mut r: Vec<Exit> = Vec::new();
    let mut i: usize = 0;
    while i < ls.len()
        invariant
            i <= ls@.len(),
            r@.len() == i,
            forall|k: int| 0 <= k < i ==> exit_named(#[trigger] r@[k], ls@[k]@),
        decreases ls@.len() - i,
    {
        r.push(Exit::parse(ls[i].as_slice()));
        i = i + 1;
    }
    r
}

/// `room` is what the sections `secs` describe: the first is the
/// description; with three sections the second lists the items and the
/// third the exits, otherwise the second lists the exits.
pub open spec fn describes(room: Room, secs: Seq<Seq<Seq<u8>>>) -> bool {
    &&& strings_are(room.description@, secs[0])
    &&& if secs.len() == 3 {
        strings_are(room.items@, listed(secs[1])) && exits_are(room.exits@, listed(secs[2]))
    } else {
        room.items@.len() == 0 && exits_are(room.exits@, listed(secs[1]))
    }
}

/// There is always at least one section.
proof fn lemma_sections_nonempty(ls: Seq<Seq<u8>>)
    ensures
        sections(ls).len() >= 1,
    decreases ls.len(),
{
    if ls.len() > 0 {
        lemma_sections_nonempty(ls.drop_last());
    }
}

/// Reads the room that `output`, the adventure's answer to a move, describes;
/// `None` when the text has no separator line, so neither items nor exits.
pub fn parse_room(output: &[u8]) -> (r: Option<Room>)
    ensures
        r is None <==> sections(text_lines(output@)).len() < 2,
        r is Some ==> describes(r->Some_0, sections(text_lines(output@))),
{
    let lines = split_lines(output);
    let secs = split_sections(&lines);
    proof {
        lemma_sections_nonempty(views(lines@));
        assert(group_views(secs@).len() == secs@.len());
    }
    if secs.len() < 2 {
        return None;
    }
    assert(views(secs@[0]@) == group_views(secs@)[0]);
    assert(views(secs@[1]@) == group_views(secs@)[1]);
    let description = to_strings(&secs[0]);
    let has_items = secs.len() == 3;
    let items = if has_items {
        to_strings(&list_entries(&secs[1]))
    } else {
        Vec::new()
    };
    let exits = if has_items {
        assert(views(secs@[2]@) == group_views(secs@)[2]);
        to_exits(&list_entries(&secs[2]))
    } else {
        to_exits(&list_entries(&secs[1]))
    };
    Some(Room { description, items, exits })
}

/// `s` begins with `p`.
pub open spec fn starts_with(s: Seq<char>, p: Seq<char>) -> bool {
    p.len() <= s.len() && s.subrange(0, p.len() as int) == p
}

/// A description line that warns that the way east is dark.
pub open spec fn warns_of_dark_east(line: Seq<char>) -> bool {
    starts_with(line, "The passage to the east looks very dark"@) || starts_with(
        line,
        "The east passage appears very dark"@,
    )
}

/// The directions among `exits`, in order.
pub open spec fn compass(exits: Seq<Exit>) -> Seq<Direction>
    decreases exits.len(),
{
    if exits.len() == 0 {
        Seq::empty()
    } else {
        let r = compass(exits.drop_last());
        match exits.last() {
            Exit::Dir(d) => r.push(d),
            Exit::Other(_) => r,
        }
    }
}

/// `ds` without east when `skip_east` holds.
pub open spec fn without_east(ds: Seq<Direction>, skip_east: bool) -> Seq<Direction>
    decreases ds.len(),
{
    if ds.len() == 0 {
        Seq::empty()
    } else {
        let r = without_east(ds.drop_last(), skip_east);
        if skip_east && ds.last() == Direction::East {
            r
        } else {
            r.push(ds.last())
        }
    }
}

/// The compass exits of `room` that are safe to take: all of them, but east
/// when the third line of the description warns that it is dark.
pub open spec fn safe_dirs(room: Room) -> Seq<Direction> {
    let dark = room.description@.len() > 2 && warns_of_dark_east(room.description@[2]@);
    without_east(compass(room.exits@), dark)
}

/// Whether `s` begins with `p`.
fn has_prefix(s: &str, p: &str) -> (r: bool)
    ensures
        r == starts_with(s@, p@),
{
    let n = p.unicode_len();
    if n > s.unicode_len() {
        return false;
    }
    let mut i: usize = 0;
    while i < n
        invariant
            n == p@.len() <= s@.len(),
            i <= n,
            forall|k: int| 0 <= k < i ==> s@[k] == p@[k],
        decreases n - i,
    {
        if s.get_char(i) != p.get_char(i) {
            assert(s@.subrange(0, n as int)[i as int] != p@[i as int]);
            return false;
        }
        i = i + 1;
    }
    assert(s@.subrange(0, n as int) =~= p@);
    true
}

/// The compass exits of `room` that are safe to take, in the order listed.
pub fn safe_directions(room: &Room) -> (r: Vec<Direction>)
    ensures
        r@ == safe_dirs(*room),
{
    let dark = room.description.len() > 2 && (has_prefix(
        room.description[2].as_str(),
        "The passage to the east looks very dark",
    ) || has_prefix(room.description[2].as_str(), "The east passage appears very dark"));
    let mut dirs: Vec<Direction> = Vec::new();
    let mut i: usize = 0;
    while i < room.exits.len()
        invariant
            i <= room.exits@.len(),
            dark == (room.description@.len() > 2 && warns_of_dark_east(room.description@[2]@)),
            dirs@ == without_east(compass(room.exits@.subrange(0, i as int)), dark),
        decreases room.exits@.len() - i,
    {
        let ghost pre = room.exits@.subrange(0, i as int);
        assert(room.exits@.subrange(0, i + 1).drop_last() =~= pre);
        match &room.exits[i] {
            Exit::Dir(d) => {
                assert(compass(room.exits@.subrange(0, i + 1)) == compass(pre).push(*d));
                assert(compass(pre).push(*d).drop_last() =~= compass(pre));
                if !(dark && *d == Direction::East) {
                    dirs.push(*d);
                }
            },
            Exit::Other(_) => {},
        }
        i = i + 1;
    }
    assert(room.exits@.subrange(0, i as int) =~= room.exits@);
    dirs
}

/// A command the adventure understands besides moving.
#[derive(Debug, Clone, Copy)]
pub enum Command<'a> {
    Take(&'a str),
    Look(&'a str),
    Use(&'a str),
    Inv,
}

/// The text of `c`: "take x", "look x", "use x" or "inv", as UTF-8 bytes.
pub open spec fn command_bytes(c: Command) -> Seq<u8> {
    match c {
        Command::Take(x) => seq![116u8, 97u8, 107u8, 101u8, 32u8] + encode_utf8(x@),
        Command::Look(x) => seq![108u8, 111u8, 111u8, 107u8, 32u8] + encode_utf8(x@),
        Command::Use(x) => seq![117u8, 115u8, 101u8, 32u8] + encode_utf8(x@),
        Command::Inv => seq![105u8, 110u8, 118u8],
    }
}

/// Appends the bytes of `tail` to `head`.
fn append_bytes(head: Vec<u8>, tail: &[u8]) -> (r: Vec<u8>)
    ensures
        r@ == head@ + tail@,
{
    let mut r = head;
    let ghost start = r@;
    let mut i: usize = 0;
    while i < tail.len()
        invariant
            i <= tail@.len(),
            r@ == start + tail@.subrange(0, i as int),
        decreases tail@.len() - i,
    {
        r.push(tail[i]);
        i = i + 1;
        assert(r@ =~= start + tail@.subrange(0, i as int));
    }
    assert(tail@.subrange(0, i as int) =~= tail@);
    r
}

impl Command<'_> {
    /// The text to type for this command, as UTF-8 bytes.
    pub fn text(&self) -> (r: Vec<u8>)
        ensures
            r@ == command_bytes(*self),
    {
        match self {
            Command::Take(x) => append_bytes(vec![116u8, 97u8, 107u8, 101u8, 32u8], x.as_bytes()),
            Command::Look(x) => append_bytes(vec![108u8, 111u8, 111u8, 107u8, 32u8], x.as_bytes()),
            Command::Use(x) => append_bytes(vec![117u8, 115u8, 101u8, 32u8], x.as_bytes()),
            Command::Inv => vec![105u8, 110u8, 118u8],
        }
    }
}

} // verus!
