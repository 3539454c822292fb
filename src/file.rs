//! Reading an asset's bytes from storage in chunks, and unpacking the
//! length-prefixed compressed blob that assets are stored as.

use vstd::prelude::*;

verus! {

/// The bytes that `lz4_flex::decompress_size_prepended` makes of `input`, or
/// `None` where it reports an error.
pub uninterp spec fn lz4_decompressed(input: Seq<u8>) -> Option<Seq<u8>>;

/// The little-endian `u32` in the first four bytes of `b`.
pub open spec fn size_prefix(b: Seq<u8>) -> nat
    recommends
        b.len() >= 4,
{
    b[0] as nat + b[1] as nat * 256 + b[2] as nat * 65536 + b[3] as nat * 16777216
}

/// Blobs this long or longer (16 MiB) are refused. `lz4_flex` sums a block's length
/// bytes in a `u32` and then adds that sum to a length of up to 19 in a `usize`;
/// below this size neither addition can overflow, even where `usize` is 32 bits.
pub const LZ4_INPUT_LIMIT: usize = 16_777_216;

/// The error of `lz4_flex`'s block decompression, carried as an opaque value.
#[verifier::external_type_specification]
#[verifier::external_body]
pub struct ExDecompressError(lz4_flex::block::DecompressError);

/// Relies on `lz4_flex::decompress_size_prepended`: it reads the uncompressed size
/// from the first four bytes (little endian; fewer than four bytes is an error),
/// decompresses the rest into at most that many bytes, and its outcome depends on
/// the input bytes alone. Inputs of [`LZ4_INPUT_LIMIT`] bytes or more are left out:
/// its length-byte sum (`read_integer`) and the additions after it could overflow
/// there.
#[verifier::external_body]
fn decompress_size_prepended(input: &[u8]) -> (r: Result<
    Vec<u8>,
    lz4_flex::block::DecompressError,
>)
    requires
        input@.len() < LZ4_INPUT_LIMIT,
    ensures
        r is Ok == lz4_decompressed(input@) is Some,
        r matches Ok(v) ==> lz4_decompressed(input@) == Some(v@),
        input@.len() < 4 ==> r is Err,
        r matches Ok(v) ==> v@.len() <= size_prefix(input@),
{
    lz4_flex::decompress_size_prepended(input)
}

/// Why an asset's bytes could not be made usable.
#[derive(Debug)]
pub enum AssetLoadError {
    /// The compressed blob was malformed.
    Decompress(lz4_flex::block::DecompressError),
    /// The compressed blob has [`LZ4_INPUT_LIMIT`] bytes or more.
    TooLarge,
}

/// Unpacks a length-prefixed compressed blob into the bytes that the asset type's
/// deserializer reads. A blob of [`LZ4_INPUT_LIMIT`] bytes or more is refused.
pub fn load_and_decompress(bytes: &[u8]) -> (r: Result<Vec<u8>, AssetLoadError>)
    ensures
        r matches Err(AssetLoadError::TooLarge) <==> bytes@.len() >= LZ4_INPUT_LIMIT,
        bytes@.len() < LZ4_INPUT_LIMIT ==> (r is Ok == lz4_decompressed(bytes@) is Some),
        r matches Ok(v) ==> lz4_decompressed(bytes@) == Some(v@) && v@.len() <= size_prefix(
            bytes@,
        ),
        bytes@.len() < 4 ==> r is Err,
{
    if bytes.len() >= LZ4_INPUT_LIMIT {
        return Err(AssetLoadError::TooLarge);
    }
    match decompress_size_prepended(bytes) {
        Ok(v) => Ok(v),
        Err(e) => Err(AssetLoadError::Decompress(e)),
    }
}

/// The bytes of a file read so far. The host reads a chunk from storage, hands
/// it over, and suspends until the next frame between chunks, so that a large
/// file does not overrun a frame's budget; an empty chunk marks the end.
pub struct FileBytes {
    bytes: Vec<u8>,
}

impl View for FileBytes {
    type V = Seq<u8>;

    closed spec fn view(&self) -> Seq<u8> {
        self.bytes@
    }
}

impl FileBytes {
    pub fn new() -> (r: Self)
        ensures
            r@ == Seq::<u8>::empty(),
    {
        FileBytes { bytes: Vec::new() }
    }

    /// Appends a chunk; returns whether it marked the end of the file.
    pub fn push_chunk(&mut self, chunk: &[u8]) -> (end: bool)
        ensures
            end == (chunk@.len() == 0),
            final(self)@ == old(self)@ + chunk@,
    {
        let mut i: usize = 0;
        while i < chunk.len()
            invariant
                i <= chunk@.len(),
                self.bytes@ == old(self)@ + chunk@.subrange(0, i as int),
            decreases chunk@.len() - i,
        {
            self.bytes.push(chunk[i]);
            i = i + 1;
            assert(chunk@.subrange(0, i as int) =~= chunk@.subrange(0, i - 1).push(chunk@[i - 1]));
        }
        assert(chunk@.subrange(0, chunk@.len() as int) =~= chunk@);
        chunk.len() == 0
    }

    /// Number of bytes read so far.
    pub fn len(&self) -> (r: usize)
        ensures
            r == self@.len(),
    {
        self.bytes.len()
    }

    /// The file's bytes.
    pub fn into_bytes(self) -> (r: Vec<u8>)
        ensures
            r@ == self@,
    {
        self.bytes
    }
}

} // verus!
