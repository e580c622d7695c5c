//! Subtitle blocks: when a text is shown and what it says.

use vstd::prelude::*;
use vstd::std_specs::ops::AddSpecImpl;
use vstd::std_specs::ops::SubSpecImpl;
use crate::time::{StartEnd, Time};

verus! {

/// One subtitle: when it is shown and what it says.
#[derive(Debug, Clone)]
pub struct Block {
    /// The first and the last instant at which the block is shown.
    pub start_end: StartEnd,
    /// The lines of the block, each closed by a newline.
    pub content: String,
}

/// What a `Block` holds, with its text as a sequence of characters.
pub struct BlockView {
    pub start_end: StartEnd,
    pub content: Seq<char>,
}

impl View for Block {
    type V = BlockView;

    open spec fn view(&self) -> BlockView {
        BlockView { start_end: self.start_end, content: self.content@ }
    }
}

impl BlockView {
    /// The text form of a block: its range on a line of its own, its
    /// content, and the empty line that closes it.
    pub open spec fn text(self) -> Seq<char> {
        self.start_end.text() + seq!['\n'] + self.content + seq!['\n']
    }
}

impl Block {
    /// Whether both instants of the block are well-formed.
    pub open spec fn wf(self) -> bool {
        self.start_end.wf()
    }

    /// The text form of this block, without an index line.
    pub fn to_string(&self) -> (r: String)
        requires
            self.wf(),
        ensures
            r@ == self@.text(),
    {
        proof {
            reveal_strlit("\n");
        }
        let mut out = String::new();
        self.start_end.write_to(&mut out);
        out.append("\n");
        out.append(self.content.as_str());
        out.append("\n");
        assert(out@ =~= self@.text());
        out
    }
}

impl AddSpecImpl<StartEnd> for Block {
    open spec fn obeys_add_spec() -> bool {
        true
    }

    open spec fn add_req(self, rhs: StartEnd) -> bool {
        self.wf() && rhs.wf() && self.start_end.can_add(rhs)
    }

    open spec fn add_spec(self, rhs: StartEnd) -> Block {
        Block { start_end: self.start_end.sum(rhs), content: self.content }
    }
}

impl core::ops::Add<StartEnd> for Block {
    type Output = Block;

    /// The block shown later by `rhs`, side by side.
    fn add(self, rhs: StartEnd) -> (r: Block)
        ensures
            r.wf(),
    {
        Block { start_end: self.start_end + rhs, content: self.content }
    }
}

impl AddSpecImpl<Time> for Block {
    open spec fn obeys_add_spec() -> bool {
        true
    }

    open spec fn add_req(self, rhs: Time) -> bool {
        self.wf() && rhs.wf() && self.start_end.can_add(StartEnd(rhs, rhs))
    }

    open spec fn add_spec(self, rhs: Time) -> Block {
        Block { start_end: self.start_end.sum(StartEnd(rhs, rhs)), content: self.content }
    }
}

impl core::ops::Add<Time> for Block {
    type Output = Block;

    /// The block shown later by `rhs`.
    fn add(self, rhs: Time) -> (r: Block)
        ensures
            r.wf(),
    {
        Block { start_end: self.start_end + rhs, content: self.content }
    }
}

impl SubSpecImpl<StartEnd> for Block {
    open spec fn obeys_sub_spec() -> bool {
        true
    }

    open spec fn sub_req(self, rhs: StartEnd) -> bool {
        self.wf() && rhs.wf()
    }

    open spec fn sub_spec(self, rhs: StartEnd) -> Block {
        Block { start_end: self.start_end.difference(rhs), content: self.content }
    }
}

impl core::ops::Sub<StartEnd> for Block {
    type Output = Block;

    /// The block shown earlier by `rhs`, side by side, and never before
    /// zero.
    fn sub(self, rhs: StartEnd) -> (r: Block)
        ensures
            r.wf(),
    {
        Block { start_end: self.start_end - rhs, content: self.content }
    }
}

impl SubSpecImpl<Time> for Block {
    open spec fn obeys_sub_spec() -> bool {
        true
    }

    open spec fn sub_req(self, rhs: Time) -> bool {
        self.wf() && rhs.wf()
    }

    open spec fn sub_spec(self, rhs: Time) -> Block {
        Block { start_end: self.start_end.difference(StartEnd(rhs, rhs)), content: self.content }
    }
}

impl core::ops::Sub<Time> for Block {
    type Output = Block;

    /// The block shown earlier by `rhs`, and never before zero.
    fn sub(self, rhs: Time) -> (r: Block)
        ensures
            r.wf(),
    {
        Block { start_end: self.start_end - rhs, content: self.content }
    }
}

} // verus!
