//! The backing store: the read-only image of every page.

use vstd::prelude::*;

verus! {

/// Why a read from the backing store failed.
#[derive(Debug, PartialEq, Eq, Structural, Clone, Copy)]
pub enum Error {
    /// The bytes asked for lie, in part or in whole, past the end of the store.
    UnexpectedEof,
}

/// The image of the backing store: the pages one after the other, each as
/// long as the buffer it is read into. The store is never written.
pub struct Storage {
    image: Vec<u8>,
}

impl View for Storage {
    type V = Seq<u8>;

    closed spec fn view(&self) -> Seq<u8> {
        self.image@
    }
}

/// The image `image` holds the whole of chunk number `index`, where chunks are
/// `size` bytes long.
pub open spec fn holds_chunk(image: Seq<u8>, index: int, size: int) -> bool {
    (index + 1) * size <= image.len()
}

/// Chunk number `index` of `image`, where chunks are `size` bytes long.
pub open spec fn chunk(image: Seq<u8>, index: int, size: int) -> Seq<u8> {
    image.subrange(index * size, (index + 1) * size)
}

/// A chunk that the image holds is `size` bytes long, and its bytes are those
/// of the image from `index * size` on.
pub proof fn lemma_chunk(image: Seq<u8>, index: int, size: int)
    requires
        0 <= index,
        0 <= size,
        holds_chunk(image, index, size),
    ensures
        chunk(image, index, size).len() == size,
        0 <= index * size,
        index * size + size <= image.len(),
        forall|offset: int|
            0 <= offset < size ==> #[trigger] chunk(image, index, size)[offset] == image[index
                * size + offset],
{
    assert(0 <= index * size) by (nonlinear_arith)
        requires
            0 <= index,
            0 <= size,
    ;
    assert((index + 1) * size == index * size + size) by (nonlinear_arith);
}

impl Storage {
    /// A store that holds the bytes of `image`.
    pub fn build(image: Vec<u8>) -> (storage: Self)
        ensures
            storage@ == image@,
    {
        Self { image }
    }

    /// The number of bytes in the store.
    pub fn len(&self) -> (n: usize)
        ensures
            n == self@.len(),
    {
        self.image.len()
    }

    /// Fills `buffer` with the chunk whose number is `seek_multiplier`, the
    /// chunks being as long as the buffer: the bytes from
    /// `seek_multiplier * buffer.len()` on. Where the store ends before the
    /// last of these bytes, nothing is read and the buffer is left as it was.
    pub fn read(&self, seek_multiplier: u64, buffer: &mut Vec<u8>) -> (result: Result<(), Error>)
        ensures
            result is Ok <==> holds_chunk(self@, seek_multiplier as int, old(buffer)@.len() as int),
            result is Ok ==> final(buffer)@ == chunk(
                self@,
                seek_multiplier as int,
                old(buffer)@.len() as int,
            ),
            result is Err ==> final(buffer)@ == old(buffer)@,
            final(buffer)@.len() == old(buffer)@.len(),
    {
        let size = buffer.len();
        if size == 0 {
            assert(buffer@ == chunk(self@, seek_multiplier as int, 0));
            return Ok(());
        }
        let chunks = self.image.len() / size;
        proof {
            lemma_whole_chunks(self.image@.len() as int, size as int, seek_multiplier as int);
        }
        if seek_multiplier >= chunks as u64 {
            return Err(Error::UnexpectedEof);
        }
        let start = seek_multiplier as usize * size;
        let mut i: usize = 0;
        while i < size
            invariant
                size == buffer@.len(),
                start + size <= self.image.len(),
                i <= size,
                forall|j: int| 0 <= j < i ==> buffer@[j] == self.image@[start + j],
            decreases size - i,
        {
            buffer[i] = self.image[start + i];
            i += 1;
        }
        assert(start == seek_multiplier * size);
        assert((seek_multiplier + 1) * size == start + size) by (nonlinear_arith)
            requires
                start == seek_multiplier * size,
        ;
        assert(buffer@ == chunk(self@, seek_multiplier as int, size as int));
        Ok(())
    }
}

/// A store of `len` bytes holds chunk number `index` just when `index` is
/// below the number of whole chunks.
proof fn lemma_whole_chunks(len: int, size: int, index: int)
    requires
        0 < size,
        0 <= len,
        0 <= index,
    ensures
        index < len / size <==> (index + 1) * size <= len,
        index < len / size ==> 0 <= index * size && index * size + size <= len,
{
    vstd::arithmetic::div_mod::lemma_fundamental_div_mod(len, size);
    vstd::arithmetic::div_mod::lemma_mod_bound(len, size);
    vstd::arithmetic::div_mod::lemma_div_pos_is_pos(len, size);
    let q = len / size;
    let r = len % size;
    assert(len == size * q + r);
    if index < q {
        assert((index + 1) * size <= q * size) by (nonlinear_arith)
            requires
                index + 1 <= q,
                0 < size,
        ;
        assert(size * q == q * size) by (nonlinear_arith);
        assert(0 <= index * size) by (nonlinear_arith)
            requires
                0 <= index,
                0 < size,
        ;
        assert((index + 1) * size == index * size + size) by (nonlinear_arith);
    } else {
        assert((index + 1) * size >= (q + 1) * size) by (nonlinear_arith)
            requires
                index >= q,
                0 < size,
        ;
        assert((q + 1) * size == size * q + size) by (nonlinear_arith);
    }
}

} // verus!
