//! An owned stream descriptor paired with its read buffer.
//!
//! The descriptor and the buffer the kernel fills share one lifetime, so a
//! slice of freshly read bytes is valid for as long as the descriptor is.
//! `data()` exposes exactly the first `len` bytes of the buffer, and the
//! capacity never changes after construction.

use nix::errno::Errno;

use vstd::prelude::*;

verus! {

/// Relies on nix::unistd::read: one non-blocking read into `buf`. At most
/// `buf.len()` bytes arrive and the buffer keeps its length; "no data yet"
/// (EAGAIN) is reported as zero bytes read, per the core's read taxonomy. A
/// failed read transfers nothing, so the buffer is unchanged. What the bytes
/// are depends on what sits in the pipe, so nothing is promised of them.
#[verifier::external_body]
fn sys_read(fd: i32, buf: &mut Vec<u8>) -> (r: Result<usize, i32>)
    ensures
        final(buf)@.len() == old(buf)@.len(),
        r matches Ok(n) ==> n <= old(buf)@.len(),
        r is Err ==> final(buf)@ == old(buf)@,
{
    match nix::unistd::read(fd, buf.as_mut_slice()) {
        Ok(n) => Ok(n),
        Err(Errno::EAGAIN) => Ok(0),
        Err(e) => Err(e as i32),
    }
}

/// An exclusively owned readable descriptor (already non-blocking) and the
/// fixed-capacity buffer its bytes land in.
pub struct BufFd {
    fd: i32,
    buffer: Vec<u8>,
    len: usize,
}

impl BufFd {
    /// The descriptor this buffer drains.
    pub closed spec fn spec_fd(&self) -> i32 {
        self.fd
    }

    /// The fixed capacity chosen at construction.
    pub closed spec fn spec_capacity(&self) -> nat {
        self.buffer@.len()
    }

    /// The valid bytes: exactly the first `len` bytes of the buffer.
    pub closed spec fn spec_data(&self) -> Seq<u8> {
        self.buffer@.take(self.len as int)
    }

    /// Invariant: never more valid bytes than the buffer holds.
    pub closed spec fn wf(&self) -> bool {
        self.len <= self.buffer@.len()
    }

    /// Take ownership of `fd` (which the caller has already placed in
    /// non-blocking mode) and pair it with a zeroed buffer of `capacity`
    /// bytes.
    pub fn new(fd: i32, capacity: usize) -> (b: BufFd)
        ensures
            b.wf(),
            b.spec_fd() == fd,
            b.spec_capacity() == capacity,
            b.spec_data() == Seq::<u8>::empty(),
    {
        let buffer: Vec<u8> = vec![0u8; capacity];
        let b = BufFd { fd, buffer, len: 0 };
        proof {
            assert(b.spec_data() =~= Seq::<u8>::empty());
        }
        b
    }

    /// The capacity chosen at construction.
    pub fn capacity(&self) -> (r: usize)
        requires
            self.wf(),
        ensures
            r == self.spec_capacity(),
    {
        self.buffer.len()
    }

    /// The raw descriptor.
    pub fn as_raw_fd(&self) -> (r: i32)
        ensures
            r == self.spec_fd(),
    {
        self.fd
    }

    /// Record that the kernel has already placed `n` bytes in the buffer
    /// (used by backends whose reads complete out of line).
    pub fn set_len(&mut self, n: usize)
        requires
            old(self).wf(),
            n <= old(self).spec_capacity(),
        ensures
            final(self).wf(),
            final(self).spec_fd() == old(self).spec_fd(),
            final(self).spec_capacity() == old(self).spec_capacity(),
            final(self).spec_data().len() == n,
    {
        self.len = n;
    }

    /// Borrow the valid bytes.
    pub fn data(&self) -> (r: &[u8])
        requires
            self.wf(),
        ensures
            r@ == self.spec_data(),
    {
        vstd::slice::slice_subrange(self.buffer.as_slice(), 0, self.len)
    }

    /// Copy the valid bytes out.
    pub fn data_to_vec(&self) -> (r: Vec<u8>)
        requires
            self.wf(),
        ensures
            r@ == self.spec_data(),
    {
        vstd::slice::slice_to_vec(self.data())
    }

    /// One non-blocking read into the buffer; the count of bytes read becomes
    /// the new `len`. "No data yet" counts as a read of zero bytes. On any
    /// other error the valid length is left as it was and the error number is
    /// surfaced. A read of zero bytes with data available means end of
    /// stream; the caller decides what to do with that.
    pub fn read(&mut self) -> (r: Result<usize, i32>)
        requires
            old(self).wf(),
        ensures
            final(self).wf(),
            final(self).spec_fd() == old(self).spec_fd(),
            final(self).spec_capacity() == old(self).spec_capacity(),
            r matches Ok(n) ==> n <= final(self).spec_capacity()
                && final(self).spec_data().len() == n,
            r is Err ==> final(self).spec_data() == old(self).spec_data(),
    {
        match sys_read(self.fd, &mut self.buffer) {
            Ok(n) => {
                self.len = n;
                Ok(n)
            }
            Err(e) => Err(e),
        }
    }
}

/// What the buffer invariant gives a caller: the valid bytes fit the
/// capacity.
pub proof fn lemma_buffd_wf_facts(b: &BufFd)
    requires
        b.wf(),
    ensures
        b.spec_data().len() <= b.spec_capacity(),
{
}

} // verus!
