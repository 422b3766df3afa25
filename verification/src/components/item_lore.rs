//! The `minecraft:lore` item component: at most 256 lines of text.

use vstd::prelude::*;
use crate::text::{append_decimal, nat_decimal};

verus! {

/// Lore with more lines than the limit: the number of lines it had.
#[derive(Debug, Clone, Copy, PartialEq, Eq)]
pub struct ItemLoreTooLong {
    pub lines: usize,
}

impl ItemLoreTooLong {
    /// The error text: `Got <lines> lines, but maximum is 256`.
    pub fn message(&self) -> (res: String)
        ensures
            res@ == "Got "@ + nat_decimal(self.lines as nat) + " lines, but maximum is 256"@,
    {
        let mut out = String::from_str("Got ");
        append_decimal(&mut out, self.lines as u64);
        out.append(" lines, but maximum is 256");
        out
    }
}

/// The lines of an item's lore, at most `MAX_LINES` of them.
///
/// `L` is the type of one line of text.
#[derive(Debug, Clone, PartialEq)]
pub struct ItemLore<L> {
    lines: Vec<L>,
}

impl<L> ItemLore<L> {
    /// The most lines lore may have.
    pub const MAX_LINES: usize = 256;

    /// The lines, in order.
    pub closed spec fn spec_lines(self) -> Seq<L> {
        self.lines@
    }

    /// The invariant: at most 256 lines.
    pub open spec fn wf(self) -> bool {
        self.spec_lines().len() <= 256
    }

    /// No lines.
    pub fn empty() -> (res: Self)
        ensures
            res.wf(),
            res.spec_lines() == Seq::<L>::empty(),
    {
        ItemLore { lines: Vec::new() }
    }

    /// The lore `lines`, refused when there are more than 256.
    pub fn new(lines: Vec<L>) -> (res: Result<Self, ItemLoreTooLong>)
        ensures
            match res {
                Ok(lore) => lines@.len() <= 256 && lore.wf() && lore.spec_lines() == lines@,
                Err(e) => lines@.len() > 256 && e.lines == lines@.len(),
            },
    {
        if lines.len() > 256 {
            return Err(ItemLoreTooLong { lines: lines.len() });
        }
        Ok(ItemLore { lines })
    }

    /// The lines, in order.
    pub fn lines(&self) -> (res: &[L])
        ensures
            res@ == self.spec_lines(),
    {
        self.lines.as_slice()
    }

    /// The lore with `line` added last, refused when that makes more than
    /// 256 lines.
    pub fn with_line_added(self, line: L) -> (res: Result<Self, ItemLoreTooLong>)
        requires
            self.wf(),
        ensures
            match res {
                Ok(lore) => self.spec_lines().len() < 256 && lore.spec_lines() == self.spec_lines().push(line),
                Err(e) => self.spec_lines().len() == 256 && e.lines == 257,
            },
    {
        let mut lines = self.lines;
        lines.push(line);
        ItemLore::new(lines)
    }
}

} // verus!
