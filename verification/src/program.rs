//! The program store: a sparse, line-number-indexed container of stored
//! lines. Slot `n` holds the line numbered `n`; storing a line overwrites
//! any earlier line at the same number, and enumeration is always in
//! ascending line-number order.

use vstd::prelude::*;

use crate::ast::Line;
use crate::ast::LineV;
use crate::text::trimmed;
use crate::text::trim_text;

verus! {

/// The size of the line-number address space: line numbers at or above this
/// bound are rejected before storing.
pub const MAX_LINES: usize = 8 * 1024;

/// The sparse program image.
pub struct Program {
    lines: Vec<Option<Line>>,
}

/// The slot a line belongs in: its number, or -1 for a direct command.
pub open spec fn line_slot(l: LineV) -> int {
    match l.number {
        Option::Some(n) => n as int,
        Option::None => -1,
    }
}

/// The stored lines of a program image, ascending by slot.
pub open spec fn stored_lines(s: Seq<Option<LineV>>) -> Seq<LineV>
    decreases s.len(),
{
    if s.len() == 0 {
        Seq::empty()
    } else {
        match s.last() {
            Option::Some(l) => stored_lines(s.drop_last()).push(l),
            Option::None => stored_lines(s.drop_last()),
        }
    }
}

/// The text that LIST and SAVE produce for the given stored lines: each
/// line's original text, trimmed of surrounding whitespace, the lines
/// separated by `'\n'`.
pub open spec fn render_listing(ls: Seq<LineV>) -> Seq<char>
    decreases ls.len(),
{
    if ls.len() == 0 {
        Seq::empty()
    } else if ls.len() == 1 {
        trimmed(ls[0].source)
    } else {
        render_listing(ls.drop_last()) + seq!['\n'] + trimmed(ls.last().source)
    }
}

impl View for Program {
    type V = Seq<Option<LineV>>;

    closed spec fn view(&self) -> Seq<Option<LineV>> {
        self.lines@.map_values(
            |ol: Option<Line>|
                match ol {
                    Option::Some(l) => Option::Some(l@),
                    Option::None => Option::None,
                },
        )
    }
}

impl Program {
    /// The store's invariant: the full address space is present, and a
    /// stored line's number is the slot it sits in.
    pub open spec fn wf(&self) -> bool {
        &&& self@.len() == MAX_LINES
        &&& forall|i: int|
            0 <= i < self@.len() ==> match #[trigger] self@[i] {
                Option::Some(l) => l.number == Option::Some(i as nat),
                Option::None => true,
            }
    }

    /// An empty program: every slot vacant.
    pub fn new() -> (r: Program)
        ensures
            r.wf(),
            r@.len() == MAX_LINES,
            forall|i: int| 0 <= i < r@.len() ==> #[trigger] r@[i] is None,
    {
        let mut lines: Vec<Option<Line>> = Vec::new();
        let mut i: usize = 0;
        while i < MAX_LINES
            invariant
                i <= MAX_LINES,
                lines@.len() == i,
                forall|j: int| 0 <= j < i ==> #[trigger] lines@[j] is None,
            decreases MAX_LINES - i,
        {
            lines.push(Option::None);
            i = i + 1;
        }
        Program { lines }
    }

    /// Stores a numbered line, overwriting any line already at that number.
    pub fn set(&mut self, line: Line)
        requires
            old(self).wf(),
            line@.number is Some,
            line_slot(line@) < MAX_LINES,
        ensures
            final(self).wf(),
            final(self)@ == old(self)@.update(line_slot(line@), Option::Some(line@)),
    {
        let ghost slot = line_slot(line@);
        if let Option::Some(n) = line.number {
            self.lines[n] = Option::Some(line);
            proof {
                assert(self@ =~= old(self)@.update(slot, Option::Some(line@)));
            }
        } else {
            proof {
                assert(false);
            }
        }
    }

    /// The line stored at `number`, or nothing; numbers outside the address
    /// space give nothing, never a fault.
    pub fn get(&self, number: usize) -> (r: Option<Line>)
        requires
            self.wf(),
        ensures
            match r {
                Option::Some(l) => number < MAX_LINES && (self@[number as int]
                    matches Option::Some(sl) && l@ == sl),
                Option::None => number >= MAX_LINES || self@[number as int] is None,
            },
    {
        if number < MAX_LINES {
            match &self.lines[number] {
                Option::Some(l) => Option::Some(l.duplicate()),
                Option::None => Option::None,
            }
        } else {
            Option::None
        }
    }

    /// Empties every slot.
    pub fn clear(&mut self)
        requires
            old(self).wf(),
        ensures
            final(self).wf(),
            final(self)@.len() == MAX_LINES,
            forall|i: int| 0 <= i < final(self)@.len() ==> #[trigger] final(self)@[i] is None,
    {
        let fresh = Program::new();
        *self = fresh;
    }

    /// Every stored line, ascending by line number.
    pub fn iter(&self) -> (r: Vec<Line>)
        requires
            self.wf(),
        ensures
            r@.map_values(|l: Line| l@) == stored_lines(self@),
    {
        let mut out: Vec<Line> = Vec::new();
        let mut i: usize = 0;
        while i < MAX_LINES
            invariant
                self.wf(),
                i <= MAX_LINES,
                out@.map_values(|l: Line| l@) =~= stored_lines(self@.subrange(0, i as int)),
            decreases MAX_LINES - i,
        {
            proof {
                assert(self@.subrange(0, i + 1 as int).drop_last() =~= self@.subrange(0, i as int));
                assert(self@.subrange(0, i + 1 as int).last() == self@[i as int]);
            }
            match &self.lines[i] {
                Option::Some(l) => {
                    out.push(l.duplicate());
                },
                Option::None => {},
            }
            i = i + 1;
        }
        proof {
            assert(self@.subrange(0, MAX_LINES as int) =~= self@);
            assert(out@.map_values(|l: Line| l@) =~= stored_lines(self@));
        }
        out
    }

    /// The LIST/SAVE text of the program: each stored line's original text,
    /// trimmed, in ascending line-number order, separated by line breaks.
    pub fn print(&self) -> (r: String)
        requires
            self.wf(),
        ensures
            r@ == render_listing(stored_lines(self@)),
    {
        let items = self.iter();
        let mut out = String::new();
        let mut i: usize = 0;
        proof {
            assert(stored_lines(self@).subrange(0, 0) =~= Seq::<LineV>::empty());
        }
        while i < items.len()
            invariant
                items@.map_values(|l: Line| l@) == stored_lines(self@),
                i <= items@.len(),
                out@ == render_listing(stored_lines(self@).subrange(0, i as int)),
            decreases items@.len() - i,
        {
            let piece = trim_text(items[i].source.as_str());
            if i > 0 {
                out.append("\n");
            }
            out.append(piece.as_str());
            proof {
                reveal_strlit("\n");
                let ghost ls = stored_lines(self@);
                assert(ls.subrange(0, i + 1 as int).drop_last() =~= ls.subrange(0, i as int));
                assert(ls.subrange(0, i + 1 as int).last() == ls[i as int]);
                assert(ls[i as int] == items@.map_values(|l: Line| l@)[i as int]);
                assert("\n"@ =~= seq!['\n']);
                if i == 0 {
                    assert(render_listing(ls.subrange(0, 1)) == trimmed(ls[0].source));
                } else {
                    assert(render_listing(ls.subrange(0, i + 1 as int)) == render_listing(
                        ls.subrange(0, i as int),
                    ) + seq!['\n'] + trimmed(ls[i as int].source));
                }
            }
            i = i + 1;
        }
        proof {
            assert(stored_lines(self@).subrange(0, stored_lines(self@).len() as int)
                =~= stored_lines(self@));
        }
        out
    }
}

/// Storing at two different line numbers leaves the same program whichever
/// line is stored first: entry order does not matter to LIST.
pub proof fn lemma_store_order_irrelevant(
    p: Seq<Option<LineV>>,
    n1: int,
    l1: LineV,
    n2: int,
    l2: LineV,
)
    requires
        0 <= n1 < p.len(),
        0 <= n2 < p.len(),
        n1 != n2,
    ensures
        p.update(n1, Option::Some(l1)).update(n2, Option::Some(l2)) == p.update(
            n2,
            Option::Some(l2),
        ).update(n1, Option::Some(l1)),
{
    assert(p.update(n1, Option::Some(l1)).update(n2, Option::Some(l2)) =~= p.update(
        n2,
        Option::Some(l2),
    ).update(n1, Option::Some(l1)));
}

/// Storing a line number twice overwrites: the program holds exactly the
/// later line at that number, never both.
pub proof fn lemma_store_overwrites(p: Seq<Option<LineV>>, n: int, l1: LineV, l2: LineV)
    requires
        0 <= n < p.len(),
    ensures
        p.update(n, Option::Some(l1)).update(n, Option::Some(l2)) == p.update(
            n,
            Option::Some(l2),
        ),
        p.update(n, Option::Some(l1)).update(n, Option::Some(l2))[n] == Option::Some(l2),
{
    assert(p.update(n, Option::Some(l1)).update(n, Option::Some(l2)) =~= p.update(
        n,
        Option::Some(l2),
    ));
}

} // verus!
