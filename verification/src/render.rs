//! A one-room ASCII picture: the room as a box, its four neighbors as
//! labels around it, every label centered on the box's middle column.

use vstd::prelude::*;
use vstd::string::StrSliceExecFns;
use vstd::string::StringExecFns;

verus! {

/// A room that knows the names of its four neighbors.
pub struct Room {
    pub name: String,
    pub north: String,
    pub south: String,
    pub east: String,
    pub west: String,
}

/// `n` copies of one character.
pub open spec fn rep(c: char, n: int) -> Seq<char>
    decreases n,
{
    if n <= 0 {
        Seq::empty()
    } else {
        rep(c, n - 1).push(c)
    }
}

/// `s` centered in a field of `w` characters of `fill`, the spare
/// character (if any) going to the right; a too-long `s` stands as it is.
pub open spec fn center_text(s: Seq<char>, w: int, fill: char) -> Seq<char> {
    if s.len() >= w {
        s
    } else {
        rep(fill, (w - s.len()) / 2) + s + rep(fill, w - s.len() - (w - s.len()) / 2)
    }
}

/// The inner width of the room's box: the name plus one space on either
/// side, widened by one when even so the box has a middle column.
pub open spec fn box_width(name: Seq<char>) -> int {
    if (name.len() + 2) % 2 == 0 {
        name.len() as int + 3
    } else {
        name.len() as int + 2
    }
}

/// The whole picture: the north label, its drop line, the box's top edge
/// with `N` on it, the west and east neighbors beside the name row, the
/// bottom edge with `S`, a drop line, and the south label.
pub open spec fn room_text(
    name: Seq<char>,
    north: Seq<char>,
    south: Seq<char>,
    east: Seq<char>,
    west: Seq<char>,
) -> Seq<char> {
    let w = box_width(name);
    let wl = west.len() as int + 3;
    seq!['\n'] + rep(' ', wl) + seq!['['] + center_text(north, w, ' ') + seq![']'] + seq!['\n']
        + rep(' ', wl + 1 + w / 2) + seq!['|'] + seq!['\n'] + rep(' ', wl) + seq!['+']
        + center_text(seq!['N'], w, '-') + seq!['+'] + seq!['\n'] + west + seq![' ', '-', ' ', '|']
        + center_text(name, w, ' ') + seq!['|', ' ', '-', ' '] + east + seq!['\n'] + rep(' ', wl)
        + seq!['+'] + center_text(seq!['S'], w, '-') + seq!['+'] + seq!['\n'] + rep(
        ' ',
        wl + 1 + w / 2,
    ) + seq!['|'] + seq!['\n'] + rep(' ', wl) + seq!['['] + center_text(south, w, ' ') + seq![']']
}

/// Appends `n` copies of the one-character string `fill`.
fn push_fill(out: &mut String, fill: &str, n: usize)
    requires
        fill@.len() == 1,
    ensures
        final(out)@ == old(out)@ + rep(fill@[0], n as int),
{
    let mut i: usize = 0;
    while i < n
        invariant
            fill@.len() == 1,
            i <= n,
            out@ == old(out)@ + rep(fill@[0], i as int),
        decreases n - i,
    {
        out.append(fill);
        i = i + 1;
        proof {
            assert(out@ =~= old(out)@ + rep(fill@[0], i as int));
        }
    }
}

/// Appends `s` centered in `w` characters of `fill`.
fn push_center(out: &mut String, s: &str, w: usize, fill: &str)
    requires
        fill@.len() == 1,
    ensures
        final(out)@ == old(out)@ + center_text(s@, w as int, fill@[0]),
{
    let len = s.unicode_len();
    if len >= w {
        out.append(s);
    } else {
        let pad = w - len;
        push_fill(out, fill, pad / 2);
        out.append(s);
        push_fill(out, fill, pad - pad / 2);
        proof {
            assert(out@ =~= old(out)@ + center_text(s@, w as int, fill@[0]));
        }
    }
}

impl Room {
    /// Draws the room: exactly the `room_text` picture of its five names.
    #[verifier::rlimit(100)]
    #[verifier::spinoff_prover]
    pub fn render(&self) -> (r: String)
        requires
            self.name@.len() + self.west@.len() + 8 <= usize::MAX,
        ensures
            r@ == room_text(self.name@, self.north@, self.south@, self.east@, self.west@),
    {
        proof {
            reveal_strlit("\n");
            reveal_strlit("[");
            reveal_strlit("]");
            reveal_strlit("|");
            reveal_strlit("+");
            reveal_strlit(" ");
            reveal_strlit("-");
            reveal_strlit("N");
            reveal_strlit("S");
            reveal_strlit(" - |");
            reveal_strlit("| - ");
        }
        let w0 = self.name.unicode_len() + 2;
        let w = if w0 % 2 == 0 {
            w0 + 1
        } else {
            w0
        };
        let wl = self.west.unicode_len() + 3;
        let mut out = String::new();
        out.append("\n");
        push_fill(&mut out, " ", wl);
        out.append("[");
        push_center(&mut out, self.north.as_str(), w, " ");
        out.append("]");
        out.append("\n");
        push_fill(&mut out, " ", wl + 1 + w / 2);
        out.append("|");
        out.append("\n");
        push_fill(&mut out, " ", wl);
        out.append("+");
        push_center(&mut out, "N", w, "-");
        out.append("+");
        out.append("\n");
        out.append(self.west.as_str());
        out.append(" - |");
        push_center(&mut out, self.name.as_str(), w, " ");
        out.append("| - ");
        out.append(self.east.as_str());
        out.append("\n");
        push_fill(&mut out, " ", wl);
        out.append("+");
        push_center(&mut out, "S", w, "-");
        out.append("+");
        out.append("\n");
        push_fill(&mut out, " ", wl + 1 + w / 2);
        out.append("|");
        out.append("\n");
        push_fill(&mut out, " ", wl);
        out.append("[");
        push_center(&mut out, self.south.as_str(), w, " ");
        out.append("]");
        proof {
            assert("\n"@ =~= seq!['\n']);
            assert("["@ =~= seq!['[']);
            assert("]"@ =~= seq![']']);
            assert("|"@ =~= seq!['|']);
            assert("+"@ =~= seq!['+']);
            assert("N"@ =~= seq!['N']);
            assert("S"@ =~= seq!['S']);
            assert(" - |"@ =~= seq![' ', '-', ' ', '|']);
            assert("| - "@ =~= seq!['|', ' ', '-', ' ']);
            assert(" "@[0] == ' ' && "-"@[0] == '-');
            assert(Seq::<char>::empty() + "\n"@ =~= "\n"@);
            assert(w as int == box_width(self.name@));
            assert(out@ == room_text(self.name@, self.north@, self.south@, self.east@,
                self.west@));
        }
        out
    }
}

} // verus!
