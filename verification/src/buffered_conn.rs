//! A peek-then-replay wrapper around a byte source.
//!
//! `BufferedReader` wraps any [`ByteSource`] and can be switched into a
//! sniffing mode in which every byte read from the source is also captured
//! into an internal buffer; after a `reset(false)` the captured bytes are
//! replayed, in order, before reads fall through to the source again.

use vstd::prelude::*;

verus! {

/// Error reported by a byte source whose read failed.
#[derive(Clone, Copy, Debug, PartialEq, Eq, Structural)]
pub struct SourceError;

/// A source of bytes. Each `read` fills a prefix of `dest` in place and
/// reports how many bytes it wrote; it never changes the length of `dest`
/// and never touches the bytes past the reported count. The bytes a
/// source has served so far are its `produced` sequence: a successful
/// read extends it by exactly the returned prefix — a source can
/// neither fabricate nor drop bytes — and a failed read leaves it
/// unchanged.
pub trait ByteSource {
    /// The bytes this source has served so far, oldest first.
    spec fn produced(&self) -> Seq<u8>;

    fn read(&mut self, dest: &mut Vec<u8>) -> (r: Result<usize, SourceError>)
        ensures
            final(dest)@.len() == old(dest)@.len(),
            r matches Ok(n) ==> n <= old(dest)@.len() && final(dest)@.skip(n as int)
                == old(dest)@.skip(n as int) && final(self).produced() == old(self).produced()
                + final(dest)@.subrange(0, n as int),
            r is Err ==> final(self).produced() == old(self).produced(),
    ;
}

/// An in-memory byte source: serves the bytes of `data` from `pos` on.
pub struct MemSource {
    pub data: Vec<u8>,
    pub pos: usize,
}

impl MemSource {
    pub fn new(data: Vec<u8>) -> (r: MemSource)
        ensures
            r.data == data,
            r.pos == 0,
    {
        MemSource { data, pos: 0 }
    }
}

impl ByteSource for MemSource {
    /// What an in-memory source has served: the bytes of `data` before
    /// `pos`.
    open spec fn produced(&self) -> Seq<u8> {
        if self.pos <= self.data@.len() {
            self.data@.take(self.pos as int)
        } else {
            self.data@
        }
    }

    /// Serves the next bytes of `data`: as many as fit in `dest` and
    /// remain after `pos`.
    fn read(&mut self, dest: &mut Vec<u8>) -> (r: Result<usize, SourceError>)
        ensures
            final(self).data == old(self).data,
            ({
                let avail: int = if old(self).pos < old(self).data@.len() {
                    old(self).data@.len() - old(self).pos
                } else {
                    0
                };
                let n: int = if old(dest)@.len() < avail {
                    old(dest)@.len() as int
                } else {
                    avail
                };
                let start: int = if old(self).pos <= old(self).data@.len() {
                    old(self).pos as int
                } else {
                    old(self).data@.len() as int
                };
                &&& r == Ok::<usize, SourceError>(n as usize)
                &&& final(self).pos == old(self).pos + n
                &&& final(dest)@ == old(self).data@.subrange(start, start + n) + old(
                    dest,
                )@.skip(n)
            }),
    {
        let dlen: usize = self.data.len();
        let avail: usize = if self.pos < dlen {
            dlen - self.pos
        } else {
            0
        };
        let n: usize = if dest.len() < avail {
            dest.len()
        } else {
            avail
        };
        let ghost dest0 = dest@;
        let mut i: usize = 0;
        while i < n
            invariant
                i <= n,
                n <= dest0.len(),
                dlen == self.data@.len(),
                n == 0 || self.pos + n <= dlen,
                dest@.len() == dest0.len(),
                forall|j: int| 0 <= j < i ==> dest@[j] == self.data@[self.pos + j],
                forall|j: int| i <= j < dest0.len() ==> dest@[j] == dest0[j],
            decreases n - i,
        {
            let b = self.data[self.pos + i];
            dest[i] = b;
            i += 1;
        }
        self.pos = self.pos + n;
        proof {
            assert(dest@.skip(n as int) =~= dest0.skip(n as int));
            let start: int = if old(self).pos <= old(self).data@.len() {
                old(self).pos as int
            } else {
                old(self).data@.len() as int
            };
            assert(dest@ =~= old(self).data@.subrange(start, start + n) + dest0.skip(n as int));
            assert(dest@.subrange(0, n as int) =~= old(self).data@.subrange(start, start + n));
            assert(self.produced() =~= old(self).produced() + dest@.subrange(0, n as int));
        }
        Ok(n)
    }
}

/// A `BufferedReader` wraps a byte source and provides a buffer for
/// reading. It can be configured to sniff the data being read into the
/// buffer, and later replay the captured bytes.
pub struct BufferedReader<R: ByteSource> {
    pub source: R,
    pub buffer: Vec<u8>,
    pub buffer_read: usize,
    pub buffer_size: usize,
    pub sniffing: bool,
}

impl<R: ByteSource> BufferedReader<R> {
    /// The reader's cursor never passes the captured size, which never
    /// passes the end of the buffer.
    pub open spec fn wf(self) -> bool {
        self.buffer_read <= self.buffer_size <= self.buffer@.len()
    }

    pub fn new(source: R) -> (r: BufferedReader<R>)
        ensures
            r.wf(),
            r.source == source,
            r.buffer@ == Seq::<u8>::empty(),
            r.buffer_read == 0,
            r.buffer_size == 0,
            !r.sniffing,
    {
        BufferedReader {
            source,
            buffer: Vec::new(),
            buffer_read: 0,
            buffer_size: 0,
            sniffing: false,
        }
    }

    /// Resets the `BufferedReader` to start sniffing or stop sniffing.
    ///
    /// The cursor returns to the start and the captured size becomes the
    /// whole buffer, so a reset re-exposes the entire captured buffer for
    /// replay, not just its unread tail.
    pub fn reset(&mut self, sniffing: bool)
        ensures
            final(self).sniffing == sniffing,
            final(self).buffer_read == 0,
            final(self).buffer_size == final(self).buffer@.len(),
            final(self).buffer == old(self).buffer,
            final(self).source == old(self).source,
            final(self).wf(),
    {
        self.sniffing = sniffing;
        self.buffer_read = 0;
        self.buffer_size = self.buffer.len();
    }

    /// Reads into a prefix of `dest` and returns how many bytes it wrote.
    ///
    /// Unread captured bytes are served first, regardless of the sniffing
    /// flag. Otherwise, when not sniffing, a leftover buffer is cleared;
    /// the read then falls through to the source: on success the bytes
    /// handed back are exactly the source's next output (the source's
    /// `produced` sequence grows by the returned prefix, so nothing is
    /// fabricated or dropped), on failure the source served nothing, and
    /// while sniffing the bytes the source produced are appended to the
    /// buffer.
    pub fn read(&mut self, dest: &mut Vec<u8>) -> (r: Result<usize, SourceError>)
        requires
            old(self).wf(),
        ensures
            final(self).wf(),
            final(dest)@.len() == old(dest)@.len(),
            final(self).sniffing == old(self).sniffing,
            old(self).buffer_read < old(self).buffer_size ==> {
                let n = if old(dest)@.len() < old(self).buffer_size - old(self).buffer_read {
                    old(dest)@.len() as int
                } else {
                    old(self).buffer_size - old(self).buffer_read
                };
                &&& r == Ok::<usize, SourceError>(n as usize)
                &&& final(dest)@ == old(self).buffer@.subrange(
                    old(self).buffer_read as int,
                    old(self).buffer_read + n,
                ) + old(dest)@.skip(n)
                &&& final(self).buffer == old(self).buffer
                &&& final(self).buffer_size == old(self).buffer_size
                &&& final(self).buffer_read == old(self).buffer_read + n
                &&& final(self).source == old(self).source
            },
            old(self).buffer_read >= old(self).buffer_size ==> {
                let kept: Seq<u8> = if old(self).sniffing { old(self).buffer@ } else { Seq::empty() };
                let kept_read: int = if old(self).sniffing { old(self).buffer_read as int } else { 0 };
                let kept_size: int = if old(self).sniffing { old(self).buffer_size as int } else { 0 };
                &&& (r matches Err(_) ==> final(self).buffer@ == kept
                    && final(self).buffer_read == kept_read
                    && final(self).buffer_size == kept_size
                    && final(self).source.produced() == old(self).source.produced())
                &&& (r matches Ok(n) ==> {
                    &&& n <= old(dest)@.len()
                    &&& final(dest)@.skip(n as int) == old(dest)@.skip(n as int)
                    &&& final(self).source.produced() == old(self).source.produced()
                        + final(dest)@.subrange(0, n as int)
                    &&& final(self).buffer_read == kept_read
                    &&& if old(self).sniffing && n > 0 {
                        final(self).buffer@ == kept + final(dest)@.subrange(0, n as int)
                            && final(self).buffer_size == kept.len() + n
                    } else {
                        final(self).buffer@ == kept && final(self).buffer_size == kept_size
                    }
                })
            },
    {
        if self.buffer_size > self.buffer_read {
            // There is still unread data in the buffer.
            let avail: usize = self.buffer_size - self.buffer_read;
            let n: usize = if dest.len() < avail {
                dest.len()
            } else {
                avail
            };
            let ghost dest0 = dest@;
            let ghost start = self.buffer_read as int;
            let mut i: usize = 0;
            while i < n
                invariant
                    i <= n,
                    n <= dest0.len(),
                    self.buffer_read + n <= self.buffer_size <= self.buffer@.len(),
                    self.buffer_read == start,
                    dest@.len() == dest0.len(),
                    forall|j: int| 0 <= j < i ==> dest@[j] == self.buffer@[start + j],
                    forall|j: int| i <= j < dest0.len() ==> dest@[j] == dest0[j],
                decreases n - i,
            {
                let b = self.buffer[self.buffer_read + i];
                dest[i] = b;
                i += 1;
            }
            self.buffer_read = self.buffer_read + n;
            proof {
                assert(dest@ =~= old(self).buffer@.subrange(start, start + n) + dest0.skip(
                    n as int,
                ));
            }
            return Ok(n);
        } else if !self.sniffing && self.buffer.len() > 0 {
            // If not sniffing and there is still data in the buffer, clear it.
            self.buffer.clear();
            self.buffer_read = 0;
            self.buffer_size = 0;
        }

        // Read from the source.
        let res = self.source.read(dest);
        match res {
            Ok(sn) => {
                if sn > 0 && self.sniffing {
                    // If sniffing is enabled, copy the read data to the buffer.
                    let ghost buf0 = self.buffer@;
                    let ghost snap = *self;
                    let mut i: usize = 0;
                    while i < sn
                        invariant
                            i <= sn,
                            sn <= dest@.len(),
                            self.buffer@ == buf0 + dest@.subrange(0, i as int),
                            self.sniffing == snap.sniffing,
                            self.buffer_read == snap.buffer_read,
                            self.buffer_size == snap.buffer_size,
                            self.source == snap.source,
                        decreases sn - i,
                    {
                        let b = dest[i];
                        self.buffer.push(b);
                        proof {
                            assert(self.buffer@ =~= buf0 + dest@.subrange(0, i + 1));
                        }
                        i += 1;
                    }
                    self.buffer_size = self.buffer.len();
                }
                Ok(sn)
            },
            Err(e) => Err(e),
        }
    }
}

} // verus!

