//! A reader that takes a byte stream in chunks of a fixed buffer size.
//!
//! Useful for memory-constrained environments (WASM, embedded): each chunk is
//! at most one buffer long, and the last chunk read is kept.

use vstd::prelude::*;
use std::io::Read;
use crate::types::{ParquetError, ErrorModel, ParquetMetadata, MetadataModel};
use crate::metadata::{MetadataReader, read_metadata_spec};
use crate::decode::byte_vec_models;

verus! {

/// The bytes of a sequence of chunks, one after another.
pub open spec fn concat_chunks(chunks: Seq<Seq<u8>>) -> Seq<u8>
    decreases chunks.len(),
{
    if chunks.len() == 0 {
        Seq::empty()
    } else {
        concat_chunks(chunks.drop_last()) + chunks.last()
    }
}

/// Every chunk holds at least one byte and at most `size`.
pub open spec fn chunks_fit(chunks: Seq<Seq<u8>>, size: usize) -> bool {
    forall|j: int| 0 <= j < chunks.len() ==> 0 < #[trigger] chunks[j].len() <= size
}

/// Parse the metadata of the bytes of a sequence of chunks, one after another.
pub fn metadata_of_chunks(chunks: &Vec<Vec<u8>>) -> (r: Result<ParquetMetadata, ParquetError>)
    ensures
        match r {
            Ok(m) => read_metadata_spec(concat_chunks(byte_vec_models(chunks@))) == Ok::<MetadataModel, ErrorModel>(m@),
            Err(e) => read_metadata_spec(concat_chunks(byte_vec_models(chunks@))) == Err::<MetadataModel, ErrorModel>(
                e@,
            ),
        },
{
    let ghost models = byte_vec_models(chunks@);
    let mut all_data: Vec<u8> = Vec::new();
    let mut i: usize = 0;
    while i < chunks.len()
        invariant
            i <= chunks@.len(),
            models == byte_vec_models(chunks@),
            all_data@ == concat_chunks(models.subrange(0, i as int)),
        decreases chunks@.len() - i,
    {
        let mut part = vstd::slice::slice_to_vec(chunks[i].as_slice());
        proof {
            assert(models.subrange(0, i + 1).drop_last() =~= models.subrange(0, i as int));
        }
        all_data.append(&mut part);
        i = i + 1;
    }
    proof {
        assert(models.subrange(0, chunks@.len() as int) =~= models);
    }
    MetadataReader::read_metadata(all_data.as_slice())
}

/// `reader.read(buf)`: fills a prefix of `buf` from the stream.
/// Claimed, as `std::io::Read::read` documents: a count of bytes read is at
/// most the buffer's length; the buffer keeps its length. What the bytes are,
/// and whether the stream has more, is up to the stream.
#[verifier::external_body]
fn read_stream<R: Read>(reader: &mut R, buf: &mut Vec<u8>) -> (r: Result<usize, std::io::Error>)
    ensures
        final(buf)@.len() == old(buf)@.len(),
        r matches Ok(n) ==> n <= old(buf)@.len(),
{
    reader.read(buf.as_mut_slice())
}

/// The number of bytes each read asks for: the buffer size, and one byte for a
/// buffer size of zero, so that a read of nothing marks only the end of the
/// stream.
pub open spec fn read_size_for(buffer_size: usize) -> usize {
    if buffer_size == 0 {
        1
    } else {
        buffer_size
    }
}

/// Memory-efficient streaming reader for Parquet files.
///
/// Reads data in chunks without loading the entire file into memory.
pub struct StreamingParquetReader<R> {
    reader: R,
    buffer_size: usize,
    current_buffer: Vec<u8>,
    last_read: Ghost<Option<(nat, nat)>>,
    chunk_log: Ghost<Seq<Seq<u8>>>,
    reads: Ghost<nat>,
}

impl<R> StreamingParquetReader<R> {
    /// The configured chunk size.
    pub closed spec fn chunk_size(&self) -> usize {
        self.buffer_size
    }

    /// The bytes of the last chunk read.
    pub closed spec fn buffered(&self) -> Seq<u8> {
        self.current_buffer@
    }

    /// The last read of the stream: the bytes it was given room for and the
    /// bytes it gave; none before the first read and after a failed one.
    pub closed spec fn last_read(&self) -> Option<(nat, nat)> {
        self.last_read@
    }

    /// The number of reads of the stream made so far.
    pub closed spec fn read_count(&self) -> nat {
        self.reads@
    }

    /// Every chunk that reads of the stream have returned, in order.
    pub closed spec fn log(&self) -> Seq<Seq<u8>> {
        self.chunk_log@
    }

    /// Create a new streaming reader with the given buffer size.
    pub fn new(reader: R, buffer_size: usize) -> (r: Self)
        ensures
            r.chunk_size() == buffer_size,
            r.buffered() == Seq::<u8>::empty(),
            r.last_read() == None::<(nat, nat)>,
            r.log() == Seq::<Seq<u8>>::empty(),
            r.read_count() == 0,
    {
        StreamingParquetReader {
            reader,
            buffer_size,
            current_buffer: Vec::with_capacity(buffer_size),
            last_read: Ghost(None),
            chunk_log: Ghost(Seq::empty()),
            reads: Ghost(0),
        }
    }

    /// Keep the first `n` bytes that a read put in `temp` as the current chunk:
    /// none when the read gave nothing, which marks the end of the stream.
    pub fn chunk_from_read(&mut self, temp: &[u8], n: usize) -> (r: Option<Vec<u8>>)
        requires
            n <= temp@.len(),
        ensures
            final(self).chunk_size() == old(self).chunk_size(),
            final(self).last_read() == old(self).last_read(),
            final(self).log() == old(self).log(),
            final(self).read_count() == old(self).read_count(),
            n == 0 ==> r is None && final(self).buffered() == Seq::<u8>::empty(),
            n > 0 ==> (r matches Some(c) && c@ == temp@.subrange(0, n as int) && final(self).buffered() == c@),
    {
        if n == 0 {
            self.current_buffer = Vec::new();
            return None;
        }
        let read = vstd::slice::slice_subrange(temp, 0, n);
        self.current_buffer = vstd::slice::slice_to_vec(read);
        Some(vstd::slice::slice_to_vec(read))
    }

    /// Get the current buffer contents.
    pub fn current_buffer(&self) -> (r: &[u8])
        ensures
            r@ == self.buffered(),
    {
        self.current_buffer.as_slice()
    }

    /// Get the configured buffer size.
    pub fn buffer_size(&self) -> (r: usize)
        ensures
            r == self.chunk_size(),
    {
        self.buffer_size
    }
}

impl<R: Read> StreamingParquetReader<R> {
    /// Read the next chunk of data from the underlying reader.
    ///
    /// Returns `None` when the reader is exhausted: a read that had room for at
    /// least one byte gave none.
    pub fn read_next_chunk(&mut self) -> (r: Result<Option<Vec<u8>>, ParquetError>)
        ensures
            final(self).chunk_size() == old(self).chunk_size(),
            final(self).read_count() == old(self).read_count() + 1,
            read_size_for(old(self).chunk_size()) >= 1,
            match r {
                Ok(None) => {
                    &&& final(self).buffered() == Seq::<u8>::empty()
                    &&& final(self).last_read() == Some((read_size_for(old(self).chunk_size()) as nat, 0nat))
                    &&& final(self).log() == old(self).log()
                },
                Ok(Some(c)) => {
                    &&& 0 < c@.len() <= read_size_for(old(self).chunk_size())
                    &&& final(self).buffered() == c@
                    &&& final(self).last_read() == Some((read_size_for(old(self).chunk_size()) as nat, c@.len()))
                    &&& final(self).log() == old(self).log().push(c@)
                },
                Err(e) => {
                    &&& e@ == ErrorModel::Io
                    &&& final(self).buffered() == Seq::<u8>::empty()
                    &&& final(self).last_read() == None::<(nat, nat)>
                    &&& final(self).log() == old(self).log()
                },
            },
    {
        self.current_buffer.clear();
        let size = if self.buffer_size == 0 {
            1
        } else {
            self.buffer_size
        };
        let mut temp_buf: Vec<u8> = vec![0u8; size];
        self.reads = Ghost(self.reads@ + 1);
        match read_stream(&mut self.reader, &mut temp_buf) {
            Ok(n) => {
                let chunk = self.chunk_from_read(temp_buf.as_slice(), n);
                self.last_read = Ghost(Some((size as nat, n as nat)));
                if n > 0 {
                    self.chunk_log = Ghost(self.chunk_log@.push(temp_buf@.subrange(0, n as int)));
                }
                Ok(chunk)
            },
            Err(e) => {
                self.last_read = Ghost(None);
                Err(ParquetError::IoError(e))
            },
        }
    }

    /// Read the entire stream into memory and parse metadata.
    ///
    /// This is a convenience method for cases where you can afford to
    /// buffer the whole file but want to use the streaming interface. The
    /// chunks are read until a read gives nothing, then parsed one after
    /// another by `metadata_of_chunks`: the result is the metadata, or the
    /// error, of the bytes that the reads of this call returned.
    pub fn read_all_metadata(&mut self) -> (r: Result<ParquetMetadata, ParquetError>)
        ensures
            final(self).chunk_size() == old(self).chunk_size(),
            final(self).buffered() == Seq::<u8>::empty(),
            final(self).read_count() > old(self).read_count(),
            old(self).log().len() <= final(self).log().len(),
            final(self).log().subrange(0, old(self).log().len() as int) == old(self).log(),
            chunks_fit(
                final(self).log().subrange(old(self).log().len() as int, final(self).log().len() as int),
                read_size_for(old(self).chunk_size()),
            ),
            match r {
                Ok(m) => {
                    &&& final(self).last_read() == Some((read_size_for(old(self).chunk_size()) as nat, 0nat))
                    &&& read_metadata_spec(
                        concat_chunks(
                            final(self).log().subrange(old(self).log().len() as int, final(self).log().len() as int),
                        ),
                    ) == Ok::<MetadataModel, ErrorModel>(m@)
                },
                Err(e) => e@ == ErrorModel::Io || {
                    &&& final(self).last_read() == Some((read_size_for(old(self).chunk_size()) as nat, 0nat))
                    &&& read_metadata_spec(
                        concat_chunks(
                            final(self).log().subrange(old(self).log().len() as int, final(self).log().len() as int),
                        ),
                    ) == Err::<MetadataModel, ErrorModel>(e@)
                },
            },
    {
        let ghost start = self.log().len();
        let mut chunks: Vec<Vec<u8>> = Vec::new();
        let ghost mut first = true;
        loop
            invariant_except_break
                self.chunk_size() == old(self).chunk_size(),
                first ==> self.read_count() == old(self).read_count(),
                !first ==> self.read_count() > old(self).read_count(),
                start == old(self).log().len(),
                start <= self.log().len(),
                self.log().subrange(0, start as int) == old(self).log(),
                byte_vec_models(chunks@) == self.log().subrange(start as int, self.log().len() as int),
                chunks_fit(byte_vec_models(chunks@), read_size_for(old(self).chunk_size())),
            ensures
                self.chunk_size() == old(self).chunk_size(),
                self.buffered() == Seq::<u8>::empty(),
                start <= self.log().len(),
                self.log().subrange(0, start as int) == old(self).log(),
                byte_vec_models(chunks@) == self.log().subrange(start as int, self.log().len() as int),
                chunks_fit(byte_vec_models(chunks@), read_size_for(old(self).chunk_size())),
                self.last_read() == Some((read_size_for(old(self).chunk_size()) as nat, 0nat)),
                self.read_count() > old(self).read_count(),
            decreases usize::MAX - chunks.len(),
        {
            let ghost before_log = self.log();
            let next = self.read_next_chunk();
            proof {
                first = false;
            }
            match next {
                Ok(Some(chunk)) => {
                    let ghost before = byte_vec_models(chunks@);
                    let ghost c = chunk@;
                    chunks.push(chunk);
                    assert(byte_vec_models(chunks@) =~= before.push(c));
                    assert(self.log().subrange(start as int, self.log().len() as int) =~= before_log.subrange(
                        start as int,
                        before_log.len() as int,
                    ).push(c));
                    assert(self.log().subrange(0, start as int) =~= before_log.subrange(0, start as int));
                },
                Ok(None) => {
                    break ;
                },
                Err(e) => {
                    return Err(e);
                },
            }
        }
        metadata_of_chunks(&chunks)
    }
}

} // verus!
