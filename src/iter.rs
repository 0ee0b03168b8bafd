use vstd::prelude::*;

verus! {

/// A read position over a borrowed byte buffer, with a mark that starts the
/// next slice to be taken.
pub struct Bytes<'a> {
    slice: &'a [u8],
    pos: usize,
    mark: usize,
}

impl<'a> Bytes<'a> {
    /// The bytes scanned over.
    pub closed spec fn data(&self) -> Seq<u8> {
        self.slice@
    }

    /// The read position.
    pub closed spec fn index(&self) -> int {
        self.pos as int
    }

    /// Where the next slice starts.
    pub closed spec fn start(&self) -> int {
        self.mark as int
    }

    pub open spec fn wf(&self) -> bool {
        0 <= self.start() <= self.index() <= self.data().len()
    }

    /// A cursor at the start of `slice`.
    pub fn new(slice: &'a [u8]) -> (r: Bytes<'a>)
        ensures
            r.wf(),
            r.data() == slice@,
            r.index() == 0,
            r.start() == 0,
    {
        Bytes { slice, pos: 0, mark: 0 }
    }

    /// The read position.
    pub fn pos(&self) -> (r: usize)
        ensures
            r == self.index(),
    {
        self.pos
    }

    /// The byte at the read position, if there is one.
    pub fn peek(&self) -> (r: Option<u8>)
        requires
            self.wf(),
        ensures
            self.index() < self.data().len() ==> r == Some(self.data()[self.index()]),
            self.index() >= self.data().len() ==> r.is_none(),
    {
        if self.pos < self.slice.len() {
            Some(self.slice[self.pos])
        } else {
            None
        }
    }

    /// Steps over the byte at the read position.
    pub fn bump(&mut self)
        requires
            old(self).wf(),
            old(self).index() < old(self).data().len(),
        ensures
            final(self).wf(),
            final(self).data() == old(self).data(),
            final(self).start() == old(self).start(),
            final(self).index() == old(self).index() + 1,
    {
        let _ = self.slice.len();
        self.pos = self.pos + 1;
    }

    /// Starts the next slice at the read position.
    pub fn mark(&mut self)
        requires
            old(self).wf(),
        ensures
            final(self).wf(),
            final(self).data() == old(self).data(),
            final(self).index() == old(self).index(),
            final(self).start() == old(self).index(),
    {
        self.mark = self.pos;
    }

    /// The bytes from the mark up to the read position; the mark moves to
    /// the read position.
    pub fn slice(&mut self) -> (r: &'a [u8])
        requires
            old(self).wf(),
        ensures
            final(self).wf(),
            final(self).data() == old(self).data(),
            final(self).index() == old(self).index(),
            final(self).start() == old(self).index(),
            r@ == old(self).data().subrange(old(self).start(), old(self).index()),
    {
        let r = vstd::slice::slice_subrange(self.slice, self.mark, self.pos);
        self.mark = self.pos;
        r
    }
}

} // verus!
