use vstd::prelude::*;
use crate::error::{ErrorKind, PpError};
use crate::token::Position;

verus! {

/// One open `ifdef` or `ifndef`: whether its condition held, and whether its
/// `else` has been reached.
#[derive(Clone, Copy, PartialEq, Eq, Structural, Debug)]
pub struct CondFrame {
    pub taken: bool,
    pub in_else: bool,
}

/// The frame's current branch is the one whose text is kept.
pub open spec fn frame_active(f: CondFrame) -> bool {
    f.taken != f.in_else
}

/// Text is kept when every open frame is in its kept branch.
pub open spec fn all_active(fs: Seq<CondFrame>) -> bool {
    forall|i: int| 0 <= i < fs.len() ==> frame_active(#[trigger] fs[i])
}

/// The frames after `else`: the innermost one switches branch.
pub open spec fn flip_last(fs: Seq<CondFrame>) -> Seq<CondFrame> {
    fs.update(fs.len() - 1, CondFrame { taken: fs.last().taken, in_else: !fs.last().in_else })
}

/// The stack of open conditionals.
pub struct CondStack {
    frames: Vec<CondFrame>,
}

impl View for CondStack {
    type V = Seq<CondFrame>;

    closed spec fn view(&self) -> Seq<CondFrame> {
        self.frames@
    }
}

impl CondStack {
    pub fn new() -> (r: CondStack)
        ensures
            r@ == Seq::<CondFrame>::empty(),
    {
        CondStack { frames: Vec::new() }
    }

    /// Whether text at this point is kept.
    pub fn is_active(&self) -> (r: bool)
        ensures
            r == all_active(self@),
    {
        let mut i: usize = 0;
        while i < self.frames.len()
            invariant
                i <= self.frames@.len(),
                forall|j: int| 0 <= j < i ==> frame_active(#[trigger] self.frames@[j]),
            decreases self.frames@.len() - i,
        {
            if self.frames[i].taken == self.frames[i].in_else {
                assert(!frame_active(self.frames@[i as int]));
                return false;
            }
            i = i + 1;
        }
        true
    }

    /// `ifdef`: the branch is kept when the macro is defined.
    pub fn push_ifdef(&mut self, defined: bool)
        ensures
            final(self)@ == old(self)@.push(CondFrame { taken: defined, in_else: false }),
    {
        self.frames.push(CondFrame { taken: defined, in_else: false });
    }

    /// `ifndef`: the branch is kept when the macro is not defined.
    pub fn push_ifndef(&mut self, defined: bool)
        ensures
            final(self)@ == old(self)@.push(CondFrame { taken: !defined, in_else: false }),
    {
        self.frames.push(CondFrame { taken: !defined, in_else: false });
    }

    /// `else`: the innermost conditional switches branch. With none open this
    /// is a structural error at `at`.
    pub fn else_branch(&mut self, at: Position) -> (r: Result<(), PpError>)
        ensures
            old(self)@.len() == 0 ==> r == Err::<(), PpError>(
                PpError { kind: ErrorKind::StructuralError, position: at },
            ) && final(self)@ == old(self)@,
            old(self)@.len() > 0 ==> r is Ok && final(self)@ == flip_last(old(self)@),
    {
        let n = self.frames.len();
        if n == 0 {
            return Err(PpError::new(ErrorKind::StructuralError, at));
        }
        let f = self.frames[n - 1];
        self.frames.set(n - 1, CondFrame { taken: f.taken, in_else: !f.in_else });
        Ok(())
    }

    /// `endif`: the innermost conditional closes. With none open this is a
    /// structural error at `at`.
    pub fn endif(&mut self, at: Position) -> (r: Result<(), PpError>)
        ensures
            old(self)@.len() == 0 ==> r == Err::<(), PpError>(
                PpError { kind: ErrorKind::StructuralError, position: at },
            ) && final(self)@ == old(self)@,
            old(self)@.len() > 0 ==> r is Ok && final(self)@ == old(self)@.drop_last(),
    {
        if self.frames.len() == 0 {
            return Err(PpError::new(ErrorKind::StructuralError, at));
        }
        self.frames.pop();
        Ok(())
    }

    /// The end of the input: a conditional still open is a structural error at `at`.
    pub fn finish(&self, at: Position) -> (r: Result<(), PpError>)
        ensures
            r == if self@.len() == 0 {
                Ok::<(), PpError>(())
            } else {
                Err(PpError { kind: ErrorKind::StructuralError, position: at })
            },
    {
        if self.frames.len() == 0 {
            Ok(())
        } else {
            Err(PpError::new(ErrorKind::StructuralError, at))
        }
    }
}

/// Inside `ifdef(M)` within kept text, text is kept exactly when `M` is
/// defined; after its `else`, exactly when it is not; after its `endif`, the
/// stack is as it was before the `ifdef`.
pub proof fn law_ifdef_branches(fs: Seq<CondFrame>, defined: bool)
    requires
        all_active(fs),
    ensures
        all_active(fs.push(CondFrame { taken: defined, in_else: false })) == defined,
        all_active(flip_last(fs.push(CondFrame { taken: defined, in_else: false }))) == !defined,
        flip_last(fs.push(CondFrame { taken: defined, in_else: false })).drop_last() == fs,
{
    let pushed = fs.push(CondFrame { taken: defined, in_else: false });
    let flipped = flip_last(pushed);
    assert(pushed[fs.len() as int] == CondFrame { taken: defined, in_else: false });
    assert(flipped[fs.len() as int] == CondFrame { taken: defined, in_else: true });
    assert forall|i: int| 0 <= i < fs.len() implies pushed[i] == fs[i] && flipped[i] == fs[i] by {}
    assert(flipped.drop_last() =~= fs);
}

/// Inside `ifndef(M)` within kept text, text is kept exactly when `M` is not
/// defined; after its `else`, exactly when it is.
pub proof fn law_ifndef_branches(fs: Seq<CondFrame>, defined: bool)
    requires
        all_active(fs),
    ensures
        all_active(fs.push(CondFrame { taken: !defined, in_else: false })) == !defined,
        all_active(flip_last(fs.push(CondFrame { taken: !defined, in_else: false }))) == defined,
{
    law_ifdef_branches(fs, !defined);
}

/// Anything nested inside a suppressed branch stays suppressed.
pub proof fn law_suppressed_stays(fs: Seq<CondFrame>, f: CondFrame)
    requires
        !all_active(fs),
    ensures
        !all_active(fs.push(f)),
        !all_active(flip_last(fs.push(f))),
{
    let i = choose|i: int| 0 <= i < fs.len() && !frame_active(fs[i]);
    assert(fs.push(f)[i] == fs[i]);
    assert(flip_last(fs.push(f))[i] == fs[i]);
}

} // verus!
