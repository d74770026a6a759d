//! A packet buffer with room to grow at both ends.

use vstd::prelude::*;

use crate::bytes;

verus! {

/// A frame as the driver hands it over: its bytes, and the free room before and behind them.
#[derive(Debug)]
pub struct Frame {
    pub bytes: Vec<u8>,
    pub headroom: usize,
    pub tailroom: usize,
}

/// The contents of a `Frame`.
pub struct FrameView {
    pub bytes: Seq<u8>,
    pub headroom: usize,
    pub tailroom: usize,
}

impl View for Frame {
    type V = FrameView;

    open spec fn view(&self) -> FrameView {
        FrameView { bytes: self.bytes@, headroom: self.headroom, tailroom: self.tailroom }
    }
}

impl FrameView {
    pub open spec fn with(self, bytes: Seq<u8>) -> FrameView {
        FrameView { bytes, headroom: self.headroom, tailroom: self.tailroom }
    }

    /// The room the buffer has in all is addressable.
    pub open spec fn fits(self) -> bool {
        self.headroom + self.bytes.len() + self.tailroom <= usize::MAX
    }

    /// Whether the frame can be given the length `n` by moving its tail.
    pub open spec fn can_resize(self, n: int) -> bool {
        n <= self.bytes.len() + self.tailroom
    }

    /// The frame with its tail moved so that it has `n` bytes; new bytes are zero.
    pub open spec fn resized(self, n: int) -> FrameView {
        FrameView {
            bytes: if n <= self.bytes.len() {
                self.bytes.take(n)
            } else {
                self.bytes + bytes::zeros((n - self.bytes.len()) as nat)
            },
            headroom: self.headroom,
            tailroom: (self.tailroom + self.bytes.len() - n) as usize,
        }
    }

    /// The frame with its head moved `n` bytes to the front; new bytes are zero.
    pub open spec fn grown_head(self, n: int) -> FrameView {
        FrameView {
            bytes: bytes::zeros(n as nat) + self.bytes,
            headroom: (self.headroom - n) as usize,
            tailroom: self.tailroom,
        }
    }

    /// The frame without its first `n` bytes.
    pub open spec fn cut_head(self, n: int) -> FrameView {
        FrameView {
            bytes: self.bytes.skip(n),
            headroom: (self.headroom + n) as usize,
            tailroom: self.tailroom,
        }
    }
}

impl Frame {
    /// Move the tail so that the frame has `n` bytes. Fails, changing nothing, where the buffer
    /// has no room for them.
    pub fn resize_tail(&mut self, n: usize) -> (ok: bool)
        requires
            old(self)@.fits(),
        ensures
            ok == old(self)@.can_resize(n as int),
            ok ==> final(self)@ == old(self)@.resized(n as int),
            !ok ==> final(self)@ == old(self)@,
            final(self)@.fits(),
    {
        let len: usize = self.bytes.len();
        if n > len + self.tailroom {
            return false;
        }
        if n <= len {
            self.bytes.truncate(n);
            self.tailroom = self.tailroom + (len - n);
            return true;
        }
        let mut i: usize = len;
        while i < n
            invariant
                len <= i <= n,
                len == old(self).bytes.len(),
                n <= len + old(self).tailroom,
                self.headroom == old(self).headroom,
                self.tailroom == old(self).tailroom,
                self.bytes@ == old(self).bytes@ + bytes::zeros((i - len) as nat),
            decreases n - i,
        {
            self.bytes.push(0u8);
            i = i + 1;
        }
        self.tailroom = self.tailroom - (n - len);
        true
    }

    /// Move the head `n` bytes to the front. Fails, changing nothing, where there is no room.
    pub fn grow_head(&mut self, n: usize) -> (ok: bool)
        requires
            old(self)@.fits(),
        ensures
            ok == (n <= old(self).headroom),
            ok ==> final(self)@ == old(self)@.grown_head(n as int),
            !ok ==> final(self)@ == old(self)@,
            final(self)@.fits(),
    {
        if n > self.headroom {
            return false;
        }
        let len: usize = self.bytes.len();
        let mut out: Vec<u8> = Vec::new();
        let mut i: usize = 0;
        while i < n
            invariant
                i <= n,
                out@ == bytes::zeros(i as nat),
            decreases n - i,
        {
            out.push(0u8);
            i = i + 1;
        }
        let mut j: usize = 0;
        while j < len
            invariant
                j <= len,
                len == self.bytes.len(),
                *self == *old(self),
                out@ == bytes::zeros(n as nat) + self.bytes@.take(j as int),
            decreases len - j,
        {
            out.push(self.bytes[j]);
            j = j + 1;
        }
        assert(self.bytes@.take(len as int) =~= self.bytes@);
        self.bytes = out;
        self.headroom = self.headroom - n;
        true
    }

    /// Drop the first `n` bytes. Fails, changing nothing, where fewer than an Ethernet header's
    /// length of bytes would be left.
    pub fn shrink_head(&mut self, n: usize) -> (ok: bool)
        requires
            old(self)@.fits(),
        ensures
            ok == (n + 14 <= old(self).bytes.len()),
            ok ==> final(self)@ == old(self)@.cut_head(n as int),
            !ok ==> final(self)@ == old(self)@,
            final(self)@.fits(),
    {
        let len: usize = self.bytes.len();
        if n > len || len - n < 14 {
            return false;
        }
        let mut out: Vec<u8> = Vec::new();
        let mut j: usize = n;
        while j < len
            invariant
                n <= j <= len,
                len == self.bytes.len(),
                *self == *old(self),
                out@ == self.bytes@.subrange(n as int, j as int),
            decreases len - j,
        {
            out.push(self.bytes[j]);
            j = j + 1;
        }
        self.bytes = out;
        self.headroom = self.headroom + n;
        true
    }
}

/// Moving the tail keeps what stays: a frame made longer has its bytes and then zeros, one made shorter
/// its first bytes; the room at the tail makes up for it.
pub proof fn law_tail_moves_keep_the_bytes(f: FrameView, n: int, i: int)
    requires
        f.fits(),
        0 <= n,
        f.can_resize(n),
        0 <= i < n,
    ensures
        f.resized(n).bytes.len() == n,
        i < f.bytes.len() ==> f.resized(n).bytes[i] == f.bytes[i],
        i >= f.bytes.len() ==> f.resized(n).bytes[i] == 0,
        f.resized(n).bytes.len() + f.resized(n).tailroom == f.bytes.len() + f.tailroom,
        f.resized(n).headroom == f.headroom,
{
}

/// Moving the head is undone by moving it back: a frame that grew by `n` bytes at its head and lost them
/// again is what it was.
pub proof fn law_head_moves_are_undone(f: FrameView, n: int)
    requires
        f.fits(),
        0 <= n <= f.headroom,
    ensures
        f.grown_head(n).bytes.len() == f.bytes.len() + n,
        f.grown_head(n).cut_head(n).bytes == f.bytes,
        f.grown_head(n).cut_head(n).headroom == f.headroom,
        f.grown_head(n).cut_head(n).tailroom == f.tailroom,
{
    assert(f.grown_head(n).cut_head(n).bytes =~= f.bytes);
}

} // verus!
