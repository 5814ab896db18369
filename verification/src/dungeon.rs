//! The dungeon graph store: named rooms, directional links kept symmetric by
//! construction, and the lookup operations over them.

use vstd::prelude::*;
use vstd::string::StrSliceExecFns;

verus! {

/// The errors every fallible dungeon operation can report.
#[derive(Debug)]
pub enum Errors {
    DuplicateRoom(String),
    UnknownRoom(String),
    IoError(std::io::Error),
    LineParseError { line_number: usize },
    DirectionParseError(String),
}

/// `std::io::Error` carried by `Errors::IoError`; the value is opaque here.
#[verifier::external_type_specification]
#[verifier::external_body]
pub struct ExIoError(std::io::Error);

/// The mathematical shape of an error: names and tokens as character
/// sequences, the wrapped I/O failure reduced to its presence.
pub enum ErrorModel {
    DuplicateRoom(Seq<char>),
    UnknownRoom(Seq<char>),
    IoError,
    LineParseError(int),
    DirectionParseError(Seq<char>),
}

impl View for Errors {
    type V = ErrorModel;

    open spec fn view(&self) -> ErrorModel {
        match *self {
            Errors::DuplicateRoom(name) => ErrorModel::DuplicateRoom(name@),
            Errors::UnknownRoom(name) => ErrorModel::UnknownRoom(name@),
            Errors::IoError(_) => ErrorModel::IoError,
            Errors::LineParseError { line_number } => ErrorModel::LineParseError(
                line_number as int,
            ),
            Errors::DirectionParseError(token) => ErrorModel::DirectionParseError(token@),
        }
    }
}

/// The four directions in which a room can have a neighbor.
#[derive(Clone, Copy, PartialEq, Eq, Structural, Debug)]
pub enum Direction {
    North,
    South,
    East,
    West,
}

/// The reverse of a direction: north and south swap, east and west swap.
pub open spec fn spec_reverse(d: Direction) -> Direction {
    match d {
        Direction::North => Direction::South,
        Direction::South => Direction::North,
        Direction::East => Direction::West,
        Direction::West => Direction::East,
    }
}

/// Reversal is a bijection with no fixed point: applied twice it is the
/// identity, and no direction is its own reverse.
pub proof fn lemma_reverse_involution(d: Direction)
    ensures
        spec_reverse(spec_reverse(d)) == d,
        spec_reverse(d) != d,
{
}

pub fn reverse_direction(direction: Direction) -> (r: Direction)
    ensures
        r == spec_reverse(direction),
{
    match direction {
        Direction::North => Direction::South,
        Direction::South => Direction::North,
        Direction::East => Direction::West,
        Direction::West => Direction::East,
    }
}

/// A room: a name and the outgoing links added so far, in insertion order.
pub struct Room {
    pub name: String,
    pub neighbors: Vec<(Direction, String)>,
}

/// A room as mathematics: its name and its ordered link list.
#[verifier::ext_equal]
pub struct RoomModel {
    pub name: Seq<char>,
    pub links: Seq<(Direction, Seq<char>)>,
}

impl View for Room {
    type V = RoomModel;

    open spec fn view(&self) -> RoomModel {
        RoomModel {
            name: self.name@,
            links: Seq::new(self.neighbors@.len(), |i: int| (
                self.neighbors@[i].0,
                self.neighbors@[i].1@,
            )),
        }
    }
}

/// The graph store owning all rooms of one session.
pub struct Dungeon {
    pub rooms: Vec<Room>,
}

impl View for Dungeon {
    type V = Seq<RoomModel>;

    open spec fn view(&self) -> Seq<RoomModel> {
        Seq::new(self.rooms@.len(), |i: int| self.rooms@[i]@)
    }
}

/// The first position at or after `i` holding a room named `name`, or
/// `m.len()` when there is none.
pub open spec fn room_index_from(m: Seq<RoomModel>, name: Seq<char>, i: int) -> int
    decreases m.len() - i,
{
    if i < 0 || i >= m.len() {
        m.len() as int
    } else if m[i].name == name {
        i
    } else {
        room_index_from(m, name, i + 1)
    }
}

/// The first position of a room named `name`, or `m.len()` when absent.
pub open spec fn room_index(m: Seq<RoomModel>, name: Seq<char>) -> int {
    room_index_from(m, name, 0)
}

pub open spec fn model_has_room(m: Seq<RoomModel>, name: Seq<char>) -> bool {
    room_index(m, name) < m.len()
}

pub proof fn lemma_room_index_from(m: Seq<RoomModel>, name: Seq<char>, i: int)
    requires
        0 <= i <= m.len(),
    ensures
        i <= room_index_from(m, name, i) <= m.len(),
        room_index_from(m, name, i) < m.len() ==> m[room_index_from(m, name, i)].name == name,
        forall|j: int| i <= j < room_index_from(m, name, i) ==> m[j].name != name,
    decreases m.len() - i,
{
    if i < m.len() && m[i].name != name {
        lemma_room_index_from(m, name, i + 1);
    }
}

pub proof fn lemma_room_index_from_skip(m: Seq<RoomModel>, name: Seq<char>, i: int)
    requires
        0 <= i <= m.len(),
        forall|j: int| 0 <= j < i ==> m[j].name != name,
    ensures
        room_index(m, name) == room_index_from(m, name, i),
    decreases i,
{
    if i > 0 {
        lemma_room_index_from_skip(m, name, i - 1);
    }
}

/// Well-formed store: no two rooms share a name.
pub open spec fn wf_model(m: Seq<RoomModel>) -> bool {
    forall|i: int, j: int| 0 <= i < j < m.len() ==> m[i].name != m[j].name
}

/// Every link target names a room of the store: no dangling names.
pub open spec fn links_closed(m: Seq<RoomModel>) -> bool {
    forall|i: int, k: int|
        0 <= i < m.len() && 0 <= k < m[i].links.len() ==> model_has_room(m, m[i].links[k].1)
}

/// What `add_room` does to the store: reject a duplicate name, else append a
/// fresh room with no links.
pub open spec fn spec_add_room(m: Seq<RoomModel>, name: Seq<char>) -> Result<
    Seq<RoomModel>,
    ErrorModel,
> {
    if model_has_room(m, name) {
        Err(ErrorModel::DuplicateRoom(name))
    } else {
        Ok(m.push(RoomModel { name, links: Seq::empty() }))
    }
}

/// What `set_link` does to the store: demand both endpoints (the first one
/// checked first), then append the forward link to `a` and the reverse link
/// to `b`, in that order.
pub open spec fn spec_set_link(
    m: Seq<RoomModel>,
    a: Seq<char>,
    d: Direction,
    b: Seq<char>,
) -> Result<Seq<RoomModel>, ErrorModel> {
    if !model_has_room(m, a) {
        Err(ErrorModel::UnknownRoom(a))
    } else if !model_has_room(m, b) {
        Err(ErrorModel::UnknownRoom(b))
    } else {
        let i = room_index(m, a);
        let j = room_index(m, b);
        let m1 = m.update(i, RoomModel { name: m[i].name, links: m[i].links.push((d, b)) });
        Ok(m1.update(j, RoomModel { name: m1[j].name, links: m1[j].links.push(
            (spec_reverse(d), a),
        ) }))
    }
}

/// The authoritative neighbor name of a link list in one direction: the most
/// recently added link wins; earlier ones stay stored but are shadowed.
pub open spec fn last_link_target(links: Seq<(Direction, Seq<char>)>, d: Direction) -> Option<
    Seq<char>,
>
    decreases links.len(),
{
    if links.len() == 0 {
        None
    } else if links.last().0 == d {
        Some(links.last().1)
    } else {
        last_link_target(links.drop_last(), d)
    }
}

/// What `get_next_room` answers: unknown room is an error, no link in the
/// asked direction is a plain absence, a dangling target is an error, and
/// otherwise the neighbor room is returned.
pub open spec fn spec_next_room(m: Seq<RoomModel>, name: Seq<char>, d: Direction) -> Result<
    Option<RoomModel>,
    ErrorModel,
> {
    if !model_has_room(m, name) {
        Err(ErrorModel::UnknownRoom(name))
    } else {
        match last_link_target(m[room_index(m, name)].links, d) {
            None => Ok(None),
            Some(target) => if model_has_room(m, target) {
                Ok(Some(m[room_index(m, target)]))
            } else {
                Err(ErrorModel::UnknownRoom(target))
            },
        }
    }
}

/// An update that keeps every room's name in place keeps every lookup:
/// `room_index` agrees before and after.
pub proof fn lemma_update_keeps_lookup(m: Seq<RoomModel>, m2: Seq<RoomModel>)
    requires
        m.len() == m2.len(),
        forall|i: int| 0 <= i < m.len() ==> m[i].name == m2[i].name,
    ensures
        forall|name: Seq<char>| #[trigger] room_index(m2, name) == room_index(m, name),
{
    assert forall|name: Seq<char>| #[trigger] room_index(m2, name) == room_index(m, name) by {
        lemma_same_names_same_index(m, m2, name, 0);
    }
}

proof fn lemma_same_names_same_index(
    m: Seq<RoomModel>,
    m2: Seq<RoomModel>,
    name: Seq<char>,
    i: int,
)
    requires
        m.len() == m2.len(),
        forall|k: int| 0 <= k < m.len() ==> m[k].name == m2[k].name,
        0 <= i,
    ensures
        room_index_from(m2, name, i) == room_index_from(m, name, i),
    decreases m.len() - i,
{
    if i < m.len() && m[i].name != name {
        lemma_same_names_same_index(m, m2, name, i + 1);
    }
}

/// A room carrying some name is enough for the lookup to land on one: the
/// first index with that name is then in range.
pub proof fn lemma_witness_has_room(m: Seq<RoomModel>, name: Seq<char>, k: int)
    requires
        0 <= k < m.len(),
        m[k].name == name,
    ensures
        model_has_room(m, name),
{
    lemma_room_index_from(m, name, 0);
}

/// Link symmetry: after any successful `set_link(a, d, b)`, reading `b`'s
/// neighbor in the reverse direction resolves to the room named `a`, and
/// reading `a`'s neighbor in `d` resolves to the room named `b`.
pub proof fn lemma_link_symmetry(m: Seq<RoomModel>, a: Seq<char>, d: Direction, b: Seq<char>)
    requires
        spec_set_link(m, a, d, b) matches Ok(m2),
    ensures
        spec_set_link(m, a, d, b) matches Ok(m2) ==> {
            &&& spec_next_room(m2, b, spec_reverse(d)) matches Ok(n) && n matches Some(back)
                && back.name == a
            &&& spec_next_room(m2, a, d) matches Ok(n) && n matches Some(fwd) && fwd.name == b
        },
{
    let i = room_index(m, a);
    let j = room_index(m, b);
    lemma_room_index_from(m, a, 0);
    lemma_room_index_from(m, b, 0);
    let m1 = m.update(i, RoomModel { name: m[i].name, links: m[i].links.push((d, b)) });
    let m2 = m1.update(j, RoomModel { name: m1[j].name, links: m1[j].links.push(
        (spec_reverse(d), a),
    ) });
    lemma_update_keeps_lookup(m, m1);
    lemma_update_keeps_lookup(m1, m2);
    lemma_reverse_involution(d);
    assert(last_link_target(m2[j].links, spec_reverse(d)) == Some(a));
    if i == j {
        assert(m2[i].links.drop_last() =~= m1[i].links);
        assert(last_link_target(m2[i].links, d) == last_link_target(m1[i].links, d));
        assert(last_link_target(m2[i].links, d) == Some(b));
    } else {
        assert(last_link_target(m2[i].links, d) == Some(b));
    }
}

/// Uniqueness: adding a name that the store already holds fails with
/// `DuplicateRoom`, and the store is left exactly as it was.
pub proof fn lemma_duplicate_room_rejected(m: Seq<RoomModel>, name: Seq<char>)
    requires
        model_has_room(m, name),
    ensures
        spec_add_room(m, name) == Err::<Seq<RoomModel>, ErrorModel>(ErrorModel::DuplicateRoom(
            name,
        )),
{
}

/// Uniqueness across calls: once `add_room(name)` has succeeded, a second
/// `add_room` with the same name fails with `DuplicateRoom`.
pub proof fn lemma_second_add_room_fails(m: Seq<RoomModel>, name: Seq<char>)
    requires
        spec_add_room(m, name) matches Ok(m2),
    ensures
        spec_add_room(m, name) matches Ok(m2) ==> spec_add_room(m2, name) == Err::<
            Seq<RoomModel>,
            ErrorModel,
        >(ErrorModel::DuplicateRoom(name)),
{
    let m2 = m.push(RoomModel { name, links: Seq::empty() });
    lemma_witness_has_room(m2, name, m.len() as int);
}

/// Character-for-character equality of two string slices.
pub fn str_eq(a: &str, b: &str) -> (r: bool)
    ensures
        r == (a@ == b@),
{
    let n = a.unicode_len();
    if n != b.unicode_len() {
        return false;
    }
    for i in 0..n
        invariant
            n == a@.len(),
            n == b@.len(),
            forall|j: int| 0 <= j < i ==> a@[j] == b@[j],
    {
        if a.get_char(i) != b.get_char(i) {
            return false;
        }
    }
    proof {
        assert(a@ =~= b@);
    }
    true
}

impl Dungeon {
    /// No two rooms of this store share a name.
    pub open spec fn wf(&self) -> bool {
        wf_model(self@)
    }

    /// Constructs an empty dungeon.
    pub fn new() -> (d: Dungeon)
        ensures
            d@ == Seq::<RoomModel>::empty(),
            d.wf(),
    {
        let d = Dungeon { rooms: Vec::new() };
        proof {
            assert(d@ =~= Seq::<RoomModel>::empty());
        }
        d
    }

    /// The first position holding a room named `name`, or `rooms.len()`.
    pub(crate) fn find_room_index(&self, name: &str) -> (r: usize)
        ensures
            r as int == room_index(self@, name@),
            r <= self.rooms.len(),
    {
        let n = self.rooms.len();
        for i in 0..n
            invariant
                n == self.rooms.len(),
                self@.len() == n,
                forall|j: int| 0 <= j < i ==> self@[j].name != name@,
        {
            if str_eq(self.rooms[i].name.as_str(), name) {
                proof {
                    lemma_room_index_from_skip(self@, name@, i as int);
                }
                return i;
            }
        }
        proof {
            lemma_room_index_from_skip(self@, name@, n as int);
        }
        n
    }

    /// Adds a room named `name`, or reports `DuplicateRoom` and leaves the
    /// store unchanged.
    pub fn add_room(&mut self, name: &str) -> (r: Result<(), Errors>)
        ensures
            match r {
                Ok(()) => spec_add_room(old(self)@, name@) matches Ok(m2) && final(self)@ == m2,
                Err(e) => spec_add_room(old(self)@, name@) matches Err(em) && e@ == em
                    && final(self)@ == old(self)@,
            },
            old(self).wf() ==> final(self).wf(),
            old(self).wf() && links_closed(old(self)@) ==> links_closed(final(self)@),
    {
        let idx = self.find_room_index(name);
        if idx < self.rooms.len() {
            return Err(Errors::DuplicateRoom(name.to_owned()));
        }
        let ghost m = self@;
        let room = Room { name: name.to_owned(), neighbors: Vec::new() };
        self.rooms.push(room);
        proof {
            assert(self@ =~~= m.push(RoomModel { name: name@, links: Seq::empty() }));
            lemma_room_index_from(m, name@, 0);
            assert forall|i: int, k: int|
                0 <= i < self@.len() && 0 <= k < self@[i].links.len() && links_closed(m) implies
                model_has_room(self@, self@[i].links[k].1) by {
                Self::lemma_has_room_push(m, self@[i].links[k].1, RoomModel {
                    name: name@,
                    links: Seq::empty(),
                });
            }
        }
        Ok(())
    }

    /// Growing the store never loses a room lookup: a name found before a
    /// push is found after it.
    proof fn lemma_has_room_push(m: Seq<RoomModel>, name: Seq<char>, r: RoomModel)
        requires
            model_has_room(m, name),
        ensures
            model_has_room(m.push(r), name),
    {
        lemma_room_index_from(m, name, 0);
        let i = room_index(m, name);
        lemma_room_index_from(m.push(r), name, 0);
        lemma_room_index_from_skip(m.push(r), name, i);
        assert(m.push(r)[i].name == name);
    }

    /// Returns the room named `room_name`, or `UnknownRoom` when absent.
    pub fn get_room(&self, room_name: &str) -> (r: Result<&Room, Errors>)
        ensures
            match r {
                Ok(room) => model_has_room(self@, room_name@) && room@ == self@[room_index(
                    self@,
                    room_name@,
                )],
                Err(e) => !model_has_room(self@, room_name@) && e@ == ErrorModel::UnknownRoom(
                    room_name@,
                ),
            },
    {
        let idx = self.find_room_index(room_name);
        if idx < self.rooms.len() {
            Ok(&self.rooms[idx])
        } else {
            Err(Errors::UnknownRoom(room_name.to_owned()))
        }
    }

    /// Links `room_name` to `other_room_name` in `direction`, and
    /// `other_room_name` back in the reverse direction; both links are
    /// appended or, when an endpoint is missing, neither.
    pub fn set_link(
        &mut self,
        room_name: &str,
        direction: Direction,
        other_room_name: &str,
    ) -> (r: Result<(), Errors>)
        ensures
            match r {
                Ok(()) => spec_set_link(old(self)@, room_name@, direction, other_room_name@)
                    matches Ok(m2) && final(self)@ == m2,
                Err(e) => spec_set_link(old(self)@, room_name@, direction, other_room_name@)
                    matches Err(em) && e@ == em && final(self)@ == old(self)@,
            },
            old(self).wf() ==> final(self).wf(),
            old(self).wf() && links_closed(old(self)@) ==> links_closed(final(self)@),
    {
        let ghost m = old(self)@;
        let i = self.find_room_index(room_name);
        if i == self.rooms.len() {
            return Err(Errors::UnknownRoom(room_name.to_owned()));
        }
        let j = self.find_room_index(other_room_name);
        if j == self.rooms.len() {
            return Err(Errors::UnknownRoom(other_room_name.to_owned()));
        }
        proof {
            lemma_room_index_from(m, room_name@, 0);
            lemma_room_index_from(m, other_room_name@, 0);
        }
        self.rooms[i].neighbors.push((direction, other_room_name.to_owned()));
        let ghost m1 = self@;
        self.rooms[j].neighbors.push((reverse_direction(direction), room_name.to_owned()));
        proof {
            assert(m1 =~~= m.update(i as int, RoomModel {
                name: m[i as int].name,
                links: m[i as int].links.push((direction, other_room_name@)),
            }));
            assert(self@ =~~= m1.update(j as int, RoomModel {
                name: m1[j as int].name,
                links: m1[j as int].links.push((spec_reverse(direction), room_name@)),
            }));
            lemma_update_keeps_lookup(m, m1);
            lemma_update_keeps_lookup(m1, self@);
        }
        Ok(())
    }

    /// Reads the neighbor of `room_name` in `direction`: the most recently
    /// added link in that direction decides; no link there is `Ok(None)`.
    pub fn get_next_room(&self, room_name: &str, direction: Direction) -> (r: Result<
        Option<&Room>,
        Errors,
    >)
        ensures
            match r {
                Ok(next) => match next {
                    Some(room) => spec_next_room(self@, room_name@, direction) matches Ok(n)
                        && n matches Some(rm) && room@ == rm,
                    None => spec_next_room(self@, room_name@, direction) == Ok::<
                        Option<RoomModel>,
                        ErrorModel,
                    >(None),
                },
                Err(e) => spec_next_room(self@, room_name@, direction) matches Err(em) && e@
                    == em,
            },
    {
        let idx = self.find_room_index(room_name);
        if idx == self.rooms.len() {
            return Err(Errors::UnknownRoom(room_name.to_owned()));
        }
        proof {
            lemma_room_index_from(self@, room_name@, 0);
        }
        let room = &self.rooms[idx];
        let ghost links = room@.links;
        let mut k = room.neighbors.len();
        proof {
            assert(links.subrange(0, k as int) =~= links);
        }
        while k > 0
            invariant
                k <= room.neighbors.len(),
                links == room@.links,
                model_has_room(self@, room_name@),
                room@ == self@[room_index(self@, room_name@)],
                last_link_target(links, direction) == last_link_target(
                    links.subrange(0, k as int),
                    direction,
                ),
            decreases k,
        {
            let d = room.neighbors[k - 1].0;
            let target_name = room.neighbors[k - 1].1.clone();
            proof {
                assert(links.subrange(0, k as int).last() == (d, target_name@));
                assert(links.subrange(0, k as int).drop_last() =~= links.subrange(
                    0,
                    k as int - 1,
                ));
            }
            if d == direction {
                let tidx = self.find_room_index(target_name.as_str());
                if tidx == self.rooms.len() {
                    return Err(Errors::UnknownRoom(target_name));
                }
                return Ok(Some(&self.rooms[tidx]));
            }
            k = k - 1;
        }
        proof {
            assert(links.subrange(0, 0) =~= Seq::empty());
        }
        Ok(None)
    }
}

} // verus!
