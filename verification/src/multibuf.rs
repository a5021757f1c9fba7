//! A buffer made of buffers.

use vstd::prelude::*;

verus! {

/// The bytes of all chunks, one after the other.
pub open spec fn joined(chunks: Seq<Seq<u8>>) -> Seq<u8>
    decreases chunks.len(),
{
    if chunks.len() == 0 {
        Seq::empty()
    } else {
        joined(chunks.drop_last()) + chunks.last()
    }
}

/// Joining two lists of chunks gives the bytes of the first, then those of the
/// second.
pub proof fn lemma_joined_append(left: Seq<Seq<u8>>, right: Seq<Seq<u8>>)
    ensures
        joined(left + right) == joined(left) + joined(right),
    decreases right.len(),
{
    if right.len() == 0 {
        assert(left + right =~= left);
    } else {
        lemma_joined_append(left, right.drop_last());
        assert((left + right).drop_last() =~= left + right.drop_last());
    }
}

/// Bytes that were produced in several chunks. Chunks are moved in and are not
/// copied before the bytes are asked for.
#[derive(Debug)]
pub struct MultiBuf {
    bufs: Vec<Vec<u8>>,
}

impl View for MultiBuf {
    type V = Seq<u8>;

    /// All bytes of the buffer.
    closed spec fn view(&self) -> Seq<u8> {
        joined(self.chunks())
    }
}

/// A result with the bytes of the buffer in place of the buffer.
pub open spec fn bytes_of<E>(result: Result<MultiBuf, E>) -> Result<Seq<u8>, E> {
    match result {
        Ok(buffer) => Ok(buffer@),
        Err(e) => Err(e),
    }
}

/// A result keeps the bytes of its buffer, or its error.
pub proof fn law_bytes_of<E>(result: Result<MultiBuf, E>)
    ensures
        result matches Ok(buffer) ==> bytes_of(result) == Ok::<Seq<u8>, E>(buffer@),
        result matches Err(e) ==> bytes_of(result) == Err::<Seq<u8>, E>(e),
{
}

impl MultiBuf {
    /// The chunks of the buffer.
    closed spec fn chunks(&self) -> Seq<Seq<u8>> {
        self.bufs@.map_values(|buf: Vec<u8>| buf@)
    }

    /// A buffer that holds nothing.
    pub fn new() -> (buffer: MultiBuf)
        ensures
            buffer@ == Seq::<u8>::empty(),
    {
        MultiBuf { bufs: Vec::new() }
    }

    /// Appends a chunk.
    pub fn push(&mut self, buf: Vec<u8>)
        ensures
            final(self)@ == old(self)@ + buf@,
    {
        let ghost before = self.chunks();
        self.bufs.push(buf);
        assert(self.chunks().drop_last() =~= before);
        assert(self.chunks().last() == buf@);
    }

    /// Appends all chunks of another buffer.
    pub fn extend(&mut self, other: MultiBuf)
        ensures
            final(self)@ == old(self)@ + other@,
    {
        let ghost before = self.chunks();
        let mut bufs = other.bufs;
        self.bufs.append(&mut bufs);
        proof {
            lemma_joined_append(before, other.chunks());
            assert(self.chunks() =~= before + other.chunks());
        }
    }

    /// The bytes of the buffer, copied into one vector.
    pub fn to_vec(&self) -> (bytes: Vec<u8>)
        ensures
            bytes@ == self@,
    {
        let mut bytes: Vec<u8> = Vec::new();
        for i in 0..self.bufs.len()
            invariant
                bytes@ == joined(self.chunks().take(i as int)),
        {
            bytes.extend_from_slice(self.bufs[i].as_slice());
            proof {
                let next = self.chunks().take(i + 1);
                assert(next.drop_last() =~= self.chunks().take(i as int));
                assert(next.last() == self.bufs@[i as int]@);
            }
        }
        assert(self.chunks().take(self.bufs@.len() as int) =~= self.chunks());
        bytes
    }
}

} // verus!
