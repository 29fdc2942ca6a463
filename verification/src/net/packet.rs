//! An owned buffer that collects the bytes of one outgoing datagram.
//!
//! Writes are capped at the buffer's MTU: a write takes as much of its
//! input as still fits and reports how much it took, so a serialized
//! message never grows beyond what one datagram can carry.

use vstd::prelude::*;

verus! {

/// Maximum length for packets exchanged over the discovery protocol,
/// matching the typical MTU of a standard router.
pub const MAX_PCKT_LEN: usize = 1500;

/// An owned buffer suitable for one packet.
#[derive(Clone, Debug)]
pub struct PacketBuffer {
    buffer: Vec<u8>,
    mmu: usize,
}

impl PacketBuffer {
    /// The bytes written so far.
    pub closed spec fn bytes(&self) -> Seq<u8> {
        self.buffer@
    }

    /// The buffer's capacity cap.
    pub closed spec fn cap(&self) -> nat {
        self.mmu as nat
    }

    /// An empty buffer capped at the standard packet length.
    pub fn new() -> (r: PacketBuffer)
        ensures
            r.bytes() == Seq::<u8>::empty(),
            r.cap() == MAX_PCKT_LEN,
    {
        PacketBuffer { buffer: Vec::new(), mmu: MAX_PCKT_LEN }
    }

    /// The packet bytes collected so far.
    pub fn as_slice(&self) -> (r: &[u8])
        ensures
            r@ == self.bytes(),
    {
        self.buffer.as_slice()
    }

    /// Drop all collected bytes; the cap stays.
    pub fn clear(&mut self)
        ensures
            final(self).bytes() == Seq::<u8>::empty(),
            final(self).cap() == old(self).cap(),
    {
        self.buffer.clear();
    }

    /// Append as much of `buf` as still fits under the cap; the number of
    /// bytes taken is returned.
    pub fn write(&mut self, buf: &[u8]) -> (taken: usize)
        ensures
            taken == spec_take_len(old(self).bytes(), old(self).cap(), buf@.len() as nat),
            final(self).bytes() == old(self).bytes() + buf@.take(taken as int),
            final(self).cap() == old(self).cap(),
    {
        let space = if self.mmu > self.buffer.len() {
            self.mmu - self.buffer.len()
        } else {
            0
        };
        let take = if buf.len() < space {
            buf.len()
        } else {
            space
        };
        let piece = vstd::slice::slice_subrange(buf, 0, take);
        self.buffer.extend_from_slice(piece);
        take
    }

    /// Append the flattened buffers as far as the cap allows: bytes are
    /// taken from each buffer in turn, and the first buffer that no longer
    /// fits whole ends the write; the number of bytes taken is returned.
    #[verifier::loop_isolation(false)]
    pub fn write_vectored(&mut self, bufs: &Vec<Vec<u8>>) -> (written: usize)
        ensures
            final(self).cap() == old(self).cap(),
            written == spec_take_len(
                old(self).bytes(),
                old(self).cap(),
                flatten_bufs(bufs.deep_view()).len() as nat,
            ),
            final(self).bytes() == old(self).bytes() + flatten_bufs(bufs.deep_view()).take(
                written as int,
            ),
    {
        let ghost views = bufs.deep_view();
        let ghost cap0 = self.cap();
        let ghost len0 = self.bytes().len();
        let mut written: usize = 0;
        let mut done = false;
        let mut i: usize = 0;
        proof {
            assert(views.take(0) =~= Seq::<Seq<u8>>::empty());
            assert(flatten_bufs(views.take(0)) =~= Seq::<u8>::empty());
            assert(self.bytes() =~= old(self).bytes() + flatten_bufs(views.take(0)));
        }
        while i < bufs.len() && !done
            invariant
                0 <= i <= views.len(),
                self.cap() == cap0,
                self.bytes().len() == len0 + written,
                len0 <= cap0 ==> self.bytes().len() <= cap0,
                len0 > cap0 ==> self.bytes().len() == len0,
                written <= flatten_bufs(views.take(i as int)).len(),
                self.bytes() == old(self).bytes() + flatten_bufs(views.take(i as int)).take(
                    written as int,
                ),
                !done ==> written == flatten_bufs(views.take(i as int)).len(),
                done ==> len0 + written == if len0 > cap0 {
                    len0
                } else {
                    cap0
                },
                done ==> written < flatten_bufs(views.take(i as int)).len(),
            decreases views.len() - i,
        {
            proof {
                lemma_flatten_bufs_step(views, i as int);
                assert(bufs[i as int].deep_view() =~= bufs@[i as int]@);
            }
            let ghost grown = flatten_bufs(views.take(i + 1));
            let take = self.write(bufs[i].as_slice());
            written += take;
            proof {
                assert(self.bytes() =~= old(self).bytes() + grown.take(written as int));
            }
            if take < bufs[i].len() {
                done = true;
            }
            i += 1;
        }
        proof {
            if i < views.len() {
                lemma_flatten_bufs_prefix(views, i as int);
                assert(flatten_bufs(views).take(written as int) =~= flatten_bufs(
                    views.take(i as int),
                ).take(written as int));
            } else {
                assert(views.take(i as int) =~= views);
            }
        }
        written
    }
}


/// The buffers of a vectored write, flattened in order.
pub open spec fn flatten_bufs(bufs: Seq<Seq<u8>>) -> Seq<u8>
    decreases bufs.len(),
{
    if bufs.len() == 0 {
        Seq::empty()
    } else {
        flatten_bufs(bufs.drop_last()) + bufs.last()
    }
}

/// Flattening one more buffer appends it.
proof fn lemma_flatten_bufs_step(bufs: Seq<Seq<u8>>, i: int)
    requires
        0 <= i < bufs.len(),
    ensures
        flatten_bufs(bufs.take(i + 1)) == flatten_bufs(bufs.take(i)) + bufs[i],
{
    assert(bufs.take(i + 1).drop_last() =~= bufs.take(i));
    assert(bufs.take(i + 1).last() == bufs[i]);
}

/// The flattening of a prefix is a prefix of the flattening.
proof fn lemma_flatten_bufs_prefix(bufs: Seq<Seq<u8>>, i: int)
    requires
        0 <= i <= bufs.len(),
    ensures
        flatten_bufs(bufs.take(i)) == flatten_bufs(bufs).take(
            flatten_bufs(bufs.take(i)).len() as int,
        ),
        flatten_bufs(bufs.take(i)).len() <= flatten_bufs(bufs).len(),
    decreases bufs.len() - i,
{
    if i == bufs.len() {
        assert(bufs.take(i) =~= bufs);
        assert(flatten_bufs(bufs).take(flatten_bufs(bufs).len() as int) =~= flatten_bufs(bufs));
    } else {
        lemma_flatten_bufs_step(bufs, i);
        lemma_flatten_bufs_prefix(bufs, i + 1);
        assert(flatten_bufs(bufs.take(i)) =~= flatten_bufs(bufs.take(i + 1)).take(
            flatten_bufs(bufs.take(i)).len() as int,
        ));
        assert(flatten_bufs(bufs.take(i)) =~= flatten_bufs(bufs).take(
            flatten_bufs(bufs.take(i)).len() as int,
        ));
    }
}

/// How many bytes of an incoming `want`-byte write fit into a buffer that
/// holds `have` bytes under cap `cap`.
pub open spec fn spec_take_len(have: Seq<u8>, cap: nat, want: nat) -> nat {
    let space = if cap > have.len() {
        (cap - have.len()) as nat
    } else {
        0
    };
    if want < space {
        want
    } else {
        space
    }
}

} // verus!
