//! The dungeon text format: two blank-separated sections, `## Rooms` with one
//! room name per line and `## Links` with one link per line, parsed
//! fail-fast with 1-based line numbers in every diagnostic.

use vstd::prelude::*;
use vstd::string::StrSliceExecFns;
use crate::dungeon::Direction;
use crate::dungeon::Dungeon;
use crate::dungeon::ErrorModel;
use crate::dungeon::Errors;
use crate::dungeon::RoomModel;
use crate::dungeon::links_closed;
use crate::dungeon::spec_add_room;
use crate::dungeon::spec_set_link;
use crate::dungeon::str_eq;

verus! {

/// Where in the two-section grammar a scan currently stands.
#[derive(Clone, Copy, Debug)]
pub enum Section {
    Preamble,
    Rooms,
    AfterRooms,
    Links,
    AfterLinks,
}

pub open spec fn is_space(c: char) -> bool {
    c == ' ' || c == '\t' || c == '\r'
}

/// A blank line: empty or made of spacing characters only.
pub open spec fn spec_is_blank(s: Seq<char>) -> bool {
    forall|i: int| 0 <= i < s.len() ==> is_space(s[i])
}

fn is_blank_line(s: &str) -> (r: bool)
    ensures
        r == spec_is_blank(s@),
{
    let n = s.unicode_len();
    for i in 0..n
        invariant
            n == s@.len(),
            forall|j: int| 0 <= j < i ==> is_space(s@[j]),
    {
        let c = s.get_char(i);
        if !(c == ' ' || c == '\t' || c == '\r') {
            return false;
        }
    }
    true
}

/// The rest of `input` after `prefix`, when `input` starts with `prefix`.
pub open spec fn spec_match_prefix(prefix: Seq<char>, input: Seq<char>) -> Option<Seq<char>> {
    if input.len() >= prefix.len() && input.subrange(0, prefix.len() as int) == prefix {
        Some(input.subrange(prefix.len() as int, input.len() as int))
    } else {
        None
    }
}

/// Strips `prefix` off the front of `input`, or answers that it is not there.
pub fn match_prefix<'a>(prefix: &str, input: &'a str) -> (r: Option<&'a str>)
    ensures
        match r {
            Some(rest) => spec_match_prefix(prefix@, input@) == Some(rest@),
            None => spec_match_prefix(prefix@, input@) is None,
        },
{
    let plen = prefix.unicode_len();
    let ilen = input.unicode_len();
    if ilen < plen {
        return None;
    }
    for i in 0..plen
        invariant
            plen == prefix@.len(),
            ilen == input@.len(),
            plen <= ilen,
            forall|j: int| 0 <= j < i ==> input@[j] == prefix@[j],
    {
        if prefix.get_char(i) != input.get_char(i) {
            proof {
                assert(input@.subrange(0, plen as int)[i as int] != prefix@[i as int]);
            }
            return None;
        }
    }
    proof {
        assert(input@.subrange(0, plen as int) =~= prefix@);
    }
    Some(input.substring_char(plen, ilen))
}

/// The literal `" -> "` stands at position `i` of `s`.
pub open spec fn arrow_at(s: Seq<char>, i: int) -> bool {
    0 <= i && i + 4 <= s.len() && s.subrange(i, i + 4) == " -> "@
}

pub open spec fn find_arrow_from(s: Seq<char>, i: int) -> Option<int>
    decreases s.len() - i,
{
    if i < 0 || i + 4 > s.len() {
        None
    } else if arrow_at(s, i) {
        Some(i)
    } else {
        find_arrow_from(s, i + 1)
    }
}

/// The first position of `" -> "` in `s`, when there is one.
pub open spec fn spec_find_arrow(s: Seq<char>) -> Option<int> {
    find_arrow_from(s, 0)
}

fn find_arrow(s: &str) -> (r: Option<usize>)
    ensures
        match r {
            Some(k) => spec_find_arrow(s@) == Some(k as int) && k + 4 <= s@.len(),
            None => spec_find_arrow(s@) is None,
        },
{
    let n = s.unicode_len();
    if n < 4 {
        return None;
    }
    let mut i: usize = 0;
    while i <= n - 4
        invariant
            n == s@.len(),
            4 <= n,
            i <= n,
            spec_find_arrow(s@) == find_arrow_from(s@, i as int),
        decreases n - i,
    {
        let hit = s.get_char(i) == ' ' && s.get_char(i + 1) == '-' && s.get_char(i + 2) == '>'
            && s.get_char(i + 3) == ' ';
        proof {
            reveal_strlit(" -> ");
            if hit {
                assert(s@.subrange(i as int, i as int + 4) =~= " -> "@);
            } else {
                assert(s@.subrange(i as int, i as int + 4) != " -> "@) by {
                    if s@.subrange(i as int, i as int + 4) == " -> "@ {
                        assert(s@.subrange(i as int, i as int + 4)[0] == ' ');
                        assert(s@.subrange(i as int, i as int + 4)[1] == '-');
                        assert(s@.subrange(i as int, i as int + 4)[2] == '>');
                        assert(s@.subrange(i as int, i as int + 4)[3] == ' ');
                    }
                }
            }
        }
        if hit {
            return Some(i);
        }
        i = i + 1;
    }
    None
}

/// The four recognized direction tokens, matched case-sensitively.
pub open spec fn spec_parse_direction(tok: Seq<char>) -> Option<Direction> {
    if tok == "North"@ {
        Some(Direction::North)
    } else if tok == "South"@ {
        Some(Direction::South)
    } else if tok == "East"@ {
        Some(Direction::East)
    } else if tok == "West"@ {
        Some(Direction::West)
    } else {
        None
    }
}

/// Reads a direction token, or answers that it is not one of the four.
pub fn parse_direction(tok: &str) -> (r: Option<Direction>)
    ensures
        r == spec_parse_direction(tok@),
{
    if str_eq(tok, "North") {
        Some(Direction::North)
    } else if str_eq(tok, "South") {
        Some(Direction::South)
    } else if str_eq(tok, "East") {
        Some(Direction::East)
    } else if str_eq(tok, "West") {
        Some(Direction::West)
    } else {
        None
    }
}

/// What a line of the `## Links` section means, as mathematics.
pub enum LinkLineModel {
    Parts(Seq<char>, Direction, Seq<char>),
    BadDirection(Seq<char>),
    Malformed,
}

/// A parsed line of the `## Links` section.
pub enum LinkLine {
    Parts(String, Direction, String),
    BadDirection(String),
    Malformed,
}

/// The meaning of a link line `- a -> Direction -> b`: the first two
/// occurrences of `" -> "` split it; the direction token must be one of the
/// four; the names are taken verbatim.
pub open spec fn spec_link_line(s: Seq<char>) -> LinkLineModel {
    match spec_match_prefix("- "@, s) {
        None => LinkLineModel::Malformed,
        Some(rest) => match spec_find_arrow(rest) {
            None => LinkLineModel::Malformed,
            Some(k) => {
                let a = rest.subrange(0, k);
                let rest2 = rest.subrange(k + 4, rest.len() as int);
                match spec_find_arrow(rest2) {
                    None => LinkLineModel::Malformed,
                    Some(k2) => {
                        let tok = rest2.subrange(0, k2);
                        let b = rest2.subrange(k2 + 4, rest2.len() as int);
                        match spec_parse_direction(tok) {
                            None => LinkLineModel::BadDirection(tok),
                            Some(d) => LinkLineModel::Parts(a, d, b),
                        }
                    },
                }
            },
        },
    }
}

fn parse_link_line(s: &str) -> (r: LinkLine)
    ensures
        match r {
            LinkLine::Parts(a, d, b) => spec_link_line(s@) == LinkLineModel::Parts(a@, d, b@),
            LinkLine::BadDirection(tok) => spec_link_line(s@) == LinkLineModel::BadDirection(
                tok@,
            ),
            LinkLine::Malformed => spec_link_line(s@) == LinkLineModel::Malformed,
        },
{
    let rest = match match_prefix("- ", s) {
        Some(rest) => rest,
        None => {
            return LinkLine::Malformed;
        },
    };
    let k = match find_arrow(rest) {
        Some(k) => k,
        None => {
            return LinkLine::Malformed;
        },
    };
    let a = rest.substring_char(0, k);
    let rlen = rest.unicode_len();
    let rest2 = rest.substring_char(k + 4, rlen);
    let k2 = match find_arrow(rest2) {
        Some(k2) => k2,
        None => {
            return LinkLine::Malformed;
        },
    };
    let tok = rest2.substring_char(0, k2);
    let rlen2 = rest2.unicode_len();
    let b = rest2.substring_char(k2 + 4, rlen2);
    match parse_direction(tok) {
        Some(d) => LinkLine::Parts(a.to_owned(), d, b.to_owned()),
        None => LinkLine::BadDirection(tok.to_owned()),
    }
}

/// The meaning of the whole format from line `i` onward, given the section
/// state and the store built so far: blank lines move between sections,
/// room and link lines mutate the store, anything else is an error carrying
/// its 1-based line number; the first error wins.
pub open spec fn spec_parse_from(
    lines: Seq<Seq<char>>,
    i: int,
    sec: Section,
    m: Seq<RoomModel>,
) -> Result<Seq<RoomModel>, ErrorModel>
    decreases lines.len() - i,
{
    if i < 0 || i >= lines.len() {
        Ok(m)
    } else {
        let ln = lines[i];
        if spec_is_blank(ln) {
            let sec2 = match sec {
                Section::Rooms => Section::AfterRooms,
                Section::Links => Section::AfterLinks,
                _ => sec,
            };
            spec_parse_from(lines, i + 1, sec2, m)
        } else {
            match sec {
                Section::Preamble => if ln == "## Rooms"@ {
                    spec_parse_from(lines, i + 1, Section::Rooms, m)
                } else {
                    Err(ErrorModel::LineParseError(i + 1))
                },
                Section::Rooms => match spec_match_prefix("- "@, ln) {
                    Some(name) => match spec_add_room(m, name) {
                        Ok(m2) => spec_parse_from(lines, i + 1, Section::Rooms, m2),
                        Err(e) => Err(e),
                    },
                    None => Err(ErrorModel::LineParseError(i + 1)),
                },
                Section::AfterRooms => if ln == "## Links"@ {
                    spec_parse_from(lines, i + 1, Section::Links, m)
                } else {
                    Err(ErrorModel::LineParseError(i + 1))
                },
                Section::Links => match spec_link_line(ln) {
                    LinkLineModel::Parts(a, d, b) => match spec_set_link(m, a, d, b) {
                        Ok(m2) => spec_parse_from(lines, i + 1, Section::Links, m2),
                        Err(e) => Err(e),
                    },
                    LinkLineModel::BadDirection(tok) => Err(ErrorModel::DirectionParseError(tok)),
                    LinkLineModel::Malformed => Err(ErrorModel::LineParseError(i + 1)),
                },
                Section::AfterLinks => Err(ErrorModel::LineParseError(i + 1)),
            }
        }
    }
}

/// The meaning of a complete description: scanned from its first line, out
/// of any section, over an empty store.
pub open spec fn spec_parse(lines: Seq<Seq<char>>) -> Result<Seq<RoomModel>, ErrorModel> {
    spec_parse_from(lines, 0, Section::Preamble, Seq::empty())
}

impl Dungeon {
    /// Builds a dungeon from the lines of a description: exactly the store
    /// `spec_parse` assigns to them, or its first error; on any error no
    /// dungeon is returned at all.
    pub fn from_lines(lines: &Vec<String>) -> (r: Result<Dungeon, Errors>)
        ensures
            match r {
                Ok(d) => spec_parse(lines.deep_view()) matches Ok(m) && d@ == m && d.wf()
                    && links_closed(d@),
                Err(e) => spec_parse(lines.deep_view()) matches Err(em) && e@ == em,
            },
    {
        let ghost lv = lines.deep_view();
        let mut d = Dungeon::new();
        let mut sec = Section::Preamble;
        proof {
            assert(d@ =~= Seq::<RoomModel>::empty());
        }
        let n = lines.len();
        for i in 0..n
            invariant
                n == lines.len(),
                lv == lines.deep_view(),
                lv.len() == n,
                spec_parse(lv) == spec_parse_from(lv, i as int, sec, d@),
                d.wf(),
                links_closed(d@),
        {
            proof {
                assert(lv[i as int] == lines@[i as int]@);
            }
            let line = lines[i].as_str();
            if is_blank_line(line) {
                sec = match sec {
                    Section::Rooms => Section::AfterRooms,
                    Section::Links => Section::AfterLinks,
                    other => other,
                };
            } else {
                match sec {
                    Section::Preamble => {
                        if str_eq(line, "## Rooms") {
                            sec = Section::Rooms;
                        } else {
                            return Err(Errors::LineParseError { line_number: i + 1 });
                        }
                    },
                    Section::Rooms => {
                        match match_prefix("- ", line) {
                            Some(name) => {
                                match d.add_room(name) {
                                    Ok(()) => {},
                                    Err(e) => {
                                        return Err(e);
                                    },
                                }
                            },
                            None => {
                                return Err(Errors::LineParseError { line_number: i + 1 });
                            },
                        }
                    },
                    Section::AfterRooms => {
                        if str_eq(line, "## Links") {
                            sec = Section::Links;
                        } else {
                            return Err(Errors::LineParseError { line_number: i + 1 });
                        }
                    },
                    Section::Links => {
                        match parse_link_line(line) {
                            LinkLine::Parts(a, dir, b) => {
                                match d.set_link(a.as_str(), dir, b.as_str()) {
                                    Ok(()) => {},
                                    Err(e) => {
                                        return Err(e);
                                    },
                                }
                            },
                            LinkLine::BadDirection(tok) => {
                                return Err(Errors::DirectionParseError(tok));
                            },
                            LinkLine::Malformed => {
                                return Err(Errors::LineParseError { line_number: i + 1 });
                            },
                        }
                    },
                    Section::AfterLinks => {
                        return Err(Errors::LineParseError { line_number: i + 1 });
                    },
                }
            }
        }
        Ok(d)
    }

    /// Relies on `std::io::BufRead::lines` to split the source into lines
    /// with the newlines removed; a read failure becomes `IoError`.
    #[verifier::external_body]
    fn read_lines<B: std::io::BufRead>(reader: B) -> (r: Result<Vec<String>, Errors>)
        ensures
            r matches Err(e) ==> e@ == ErrorModel::IoError,
    {
        match reader.lines().collect::<Result<Vec<String>, std::io::Error>>() {
            Ok(v) => Ok(v),
            Err(e) => Err(Errors::IoError(e)),
        }
    }

    /// Reads a dungeon description from any line source. Whatever lines the
    /// source yields, the result is their `spec_parse` meaning; a failing
    /// source is reported as `IoError`.
    pub fn from_reader<B: std::io::BufRead>(reader: B) -> (r: Result<Dungeon, Errors>)
        ensures
            r matches Ok(d) ==> d.wf() && links_closed(d@) && exists|ls: Seq<Seq<char>>|
                spec_parse(ls) == Ok::<Seq<RoomModel>, ErrorModel>(d@),
            r matches Err(e) ==> e@ == ErrorModel::IoError || exists|ls: Seq<Seq<char>>|
                spec_parse(ls) == Err::<Seq<RoomModel>, ErrorModel>(e@),
    {
        let lines = match Self::read_lines(reader) {
            Ok(v) => v,
            Err(e) => {
                return Err(e);
            },
        };
        match Dungeon::from_lines(&lines) {
            Ok(d) => {
                proof {
                    let ls = lines.deep_view();
                    assert(spec_parse(ls) == Ok::<Seq<RoomModel>, ErrorModel>(d@));
                }
                Ok(d)
            },
            Err(e) => Err(e),
        }
    }
}

} // verus!
