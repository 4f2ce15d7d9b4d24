use crate::hex::{hex_encode, is_hex_digest, lemma_hex_encode_is_digest, to_hex};
use vstd::prelude::*;
use vstd::slice::*;

verus! {

/// Number of bytes asked of a source per read when nothing else is chosen.
pub const CHUNK_SIZE: usize = 0x4000;

/// A running MD5 computation. It holds the hasher of the `md5` crate, whose
/// type Verus cannot take in; nothing of its inside is visible to proofs, which
/// speak of it through [`absorbed`] alone.
#[verifier::external_body]
pub struct Hasher {
    inner: md5::Md5,
}

/// The bytes that a hasher has taken in so far, in order.
pub uninterp spec fn absorbed(h: Hasher) -> Seq<u8>;

/// The sixteen bytes of the MD5 digest of a byte string.
pub uninterp spec fn md5_of(data: Seq<u8>) -> Seq<u8>;

/// `md5::Md5::new` (`Digest::new`): a fresh hasher has taken in nothing.
#[verifier::external_body]
fn hasher_new() -> (h: Hasher)
    ensures
        absorbed(h) == Seq::<u8>::empty(),
{
    Hasher { inner: <md5::Md5 as md5::Digest>::new() }
}

/// `Digest::update` on `md5::Md5`: the data is appended to what the hasher
/// has taken in. The crate buffers partial blocks, so only the concatenation
/// of all the data counts, not where one call ends and the next begins.
#[verifier::external_body]
fn hasher_update(h: &mut Hasher, data: &[u8])
    ensures
        absorbed(*final(h)) == absorbed(*old(h)) + data@,
{
    md5::Digest::update(&mut h.inner, data);
}

/// `Digest::finalize` on `md5::Md5`: the MD5 digest of everything taken in.
/// The crate's output size is sixteen bytes.
#[verifier::external_body]
fn hasher_finalize(h: Hasher) -> (out: Vec<u8>)
    ensures
        out@ == md5_of(absorbed(h)),
        out@.len() == 16,
{
    md5::Digest::finalize(h.inner).to_vec()
}

/// The fingerprint of a content: its MD5 digest in lowercase hexadecimal.
pub open spec fn fingerprint_of(content: Seq<u8>) -> Seq<char> {
    hex_encode(md5_of(content))
}

/// The chunks laid end to end.
pub open spec fn concat_chunks(chunks: Seq<Seq<u8>>) -> Seq<u8>
    decreases chunks.len(),
{
    if chunks.len() == 0 {
        Seq::empty()
    } else {
        concat_chunks(chunks.drop_last()) + chunks.last()
    }
}

/// The contents of a list of buffers.
pub open spec fn chunk_views(chunks: Seq<Vec<u8>>) -> Seq<Seq<u8>> {
    chunks.map_values(|c: Vec<u8>| c@)
}

/// Why a file yielded no fingerprint.
#[derive(Debug, Clone, Copy, PartialEq, Eq, Structural)]
pub enum DigestError {
    /// The file could not be opened for reading.
    OpenFailure,
    /// A read failed after the file had been opened.
    ReadFailure,
}

/// What one read of a byte source gave.
#[derive(Debug, PartialEq, Eq)]
pub enum ReadOutcome {
    /// The bytes read; none at the end of the source.
    Data(Vec<u8>),
    /// The read failed.
    Failed,
}

/// A fingerprint in the making: the bytes of a source are fed to it read by
/// read, and it says after each read whether the source is exhausted.
pub struct StreamDigest {
    hasher: Hasher,
    chunk_size: usize,
}

/// What a [`StreamDigest`] has become after one read.
pub enum DigestStep {
    /// More is to be read.
    Continue(StreamDigest),
    /// The source is exhausted: its fingerprint.
    Done(String),
    /// The source failed; whatever was computed so far is dropped.
    Failed(DigestError),
}

impl StreamDigest {
    /// The bytes fed so far.
    pub closed spec fn content(&self) -> Seq<u8> {
        absorbed(self.hasher)
    }

    /// The number of bytes that each read asks for.
    pub closed spec fn chunk_len(&self) -> usize {
        self.chunk_size
    }

    /// A digest of nothing yet, for a source read `chunk_size` bytes at a time.
    pub fn new(chunk_size: usize) -> (s: Self)
        ensures
            s.content() == Seq::<u8>::empty(),
            s.chunk_len() == chunk_size,
    {
        StreamDigest { hasher: hasher_new(), chunk_size }
    }

    /// A digest of nothing yet, for reads of [`CHUNK_SIZE`] bytes.
    pub fn standard() -> (s: Self)
        ensures
            s.content() == Seq::<u8>::empty(),
            s.chunk_len() == CHUNK_SIZE,
    {
        StreamDigest::new(CHUNK_SIZE)
    }

    /// Takes in the outcome of one read. A failed read ends the digest with
    /// no fingerprint. A read that came back empty or short of the chunk size
    /// marks the end of the source: its bytes are taken in and the fingerprint
    /// of everything fed is returned. Any other read is taken in and more is
    /// asked for.
    pub fn feed(self, read: ReadOutcome) -> (step: DigestStep)
        ensures
            match read {
                ReadOutcome::Failed => step == DigestStep::Failed(DigestError::ReadFailure),
                ReadOutcome::Data(chunk) => if chunk@.len() < self.chunk_len() || chunk@.len() == 0 {
                    &&& step matches DigestStep::Done(fp)
                    &&& fp@ == fingerprint_of(self.content() + chunk@)
                    &&& is_hex_digest(fp@)
                } else {
                    &&& step matches DigestStep::Continue(next)
                    &&& next.content() == self.content() + chunk@
                    &&& next.chunk_len() == self.chunk_len()
                },
            },
    {
        match read {
            ReadOutcome::Failed => DigestStep::Failed(DigestError::ReadFailure),
            ReadOutcome::Data(chunk) => {
                let n = chunk.len();
                let mut hasher = self.hasher;
                hasher_update(&mut hasher, chunk.as_slice());
                if n == 0 || n < self.chunk_size {
                    let raw = hasher_finalize(hasher);
                    proof {
                        lemma_hex_encode_is_digest(raw@);
                    }
                    DigestStep::Done(to_hex(raw.as_slice()))
                } else {
                    DigestStep::Continue(StreamDigest { hasher, chunk_size: self.chunk_size })
                }
            },
        }
    }
}

/// The fingerprint of `data`, computed in one piece.
pub fn digest_bytes(data: &[u8]) -> (fp: String)
    ensures
        fp@ == fingerprint_of(data@),
        is_hex_digest(fp@),
{
    let mut hasher = hasher_new();
    hasher_update(&mut hasher, data);
    assert(Seq::<u8>::empty() + data@ =~= data@);
    let raw = hasher_finalize(hasher);
    proof {
        lemma_hex_encode_is_digest(raw@);
    }
    to_hex(raw.as_slice())
}

/// The fingerprint of the content that `chunks` make up when laid end to end.
pub fn digest_chunks(chunks: &Vec<Vec<u8>>) -> (fp: String)
    ensures
        fp@ == fingerprint_of(concat_chunks(chunk_views(chunks@))),
        is_hex_digest(fp@),
{
    let mut hasher = hasher_new();
    let mut i: usize = 0;
    assert(chunk_views(chunks@).take(0) =~= Seq::<Seq<u8>>::empty());
    while i < chunks.len()
        invariant
            i <= chunks.len(),
            absorbed(hasher) == concat_chunks(chunk_views(chunks@).take(i as int)),
        decreases chunks.len() - i,
    {
        hasher_update(&mut hasher, chunks[i].as_slice());
        proof {
            let views = chunk_views(chunks@);
            assert(views.take(i + 1).drop_last() =~= views.take(i as int));
            assert(views.take(i + 1).last() == chunks@[i as int]@);
        }
        i += 1;
    }
    assert(chunk_views(chunks@).take(chunks@.len() as int) =~= chunk_views(chunks@));
    let raw = hasher_finalize(hasher);
    proof {
        lemma_hex_encode_is_digest(raw@);
    }
    to_hex(raw.as_slice())
}

/// The fingerprint of `source`, computed as for a stream: the source is read
/// `chunk_size` bytes at a time and each read is fed to a [`StreamDigest`]
/// until it reports the end. Whatever the chunk size, the fingerprint is that
/// of the whole source; a chunk size of zero reads nothing at all.
pub fn calculate_digest(source: &[u8], chunk_size: usize) -> (fp: String)
    ensures
        chunk_size > 0 ==> fp@ == fingerprint_of(source@),
        chunk_size == 0 ==> fp@ == fingerprint_of(Seq::<u8>::empty()),
        is_hex_digest(fp@),
{
    let mut state = StreamDigest::new(chunk_size);
    let mut pos: usize = 0;
    assert(source@.take(0) =~= Seq::<u8>::empty());
    loop
        invariant
            pos <= source.len(),
            state.chunk_len() == chunk_size,
            chunk_size > 0 ==> state.content() == source@.take(pos as int),
            chunk_size == 0 ==> state.content() == Seq::<u8>::empty(),
        decreases source.len() - pos,
    {
        let remaining = source.len() - pos;
        let n = if remaining < chunk_size {
            remaining
        } else {
            chunk_size
        };
        let chunk = slice_to_vec(slice_subrange(source, pos, pos + n));
        proof {
            assert(source@.take(pos as int) + source@.subrange(pos as int, pos + n) =~= source@.take(
                pos + n,
            ));
            assert(source@.take(source@.len() as int) =~= source@);
            if chunk_size == 0 {
                assert(Seq::<u8>::empty() + chunk@ =~= Seq::<u8>::empty());
            }
        }
        match state.feed(ReadOutcome::Data(chunk)) {
            DigestStep::Continue(next) => {
                state = next;
                pos = pos + n;
            },
            DigestStep::Done(fp) => {
                return fp;
            },
            DigestStep::Failed(_) => {
                return unreached();
            },
        }
    }
}

/// However a content is cut into chunks, the chunks give the fingerprint
/// that the content gives as a single chunk.
pub proof fn lemma_chunking_keeps_fingerprint(content: Seq<u8>, chunks: Seq<Seq<u8>>)
    requires
        concat_chunks(chunks) == content,
    ensures
        fingerprint_of(concat_chunks(chunks)) == fingerprint_of(concat_chunks(seq![content])),
{
    lemma_concat_single(content);
}

/// A single chunk laid end to end is itself.
pub proof fn lemma_concat_single(content: Seq<u8>)
    ensures
        concat_chunks(seq![content]) == content,
{
    let one = seq![content];
    assert(one.drop_last() =~= Seq::<Seq<u8>>::empty());
    assert(concat_chunks(one.drop_last()) == Seq::<u8>::empty());
    assert(Seq::<u8>::empty() + content =~= content);
}

} // verus!
