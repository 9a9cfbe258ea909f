//! Asset loading interfaces for filesystem-backed content.
//!
//! Traits used to source assets such as fonts or images from an underlying
//! filesystem or table, and a small manager that drains a reader.
use vstd::prelude::*;

verus! {

/// Filesystem-level failure.
#[derive(Debug, Clone, Copy, PartialEq, Eq, Structural)]
pub enum FsError {
    /// Underlying device failure.
    Device,
    /// Malformed path.
    InvalidPath,
    /// The named file does not exist.
    NoSuchFile,
}

/// Block storage device backing a filesystem.
pub trait BlockDevice {
    /// Read whole blocks starting at `lba` into `buf`.
    fn read_blocks(&mut self, lba: u64, buf: &mut [u8]) -> Result<(), FsError>;

    /// Write whole blocks starting at `lba` from `buf`.
    fn write_blocks(&mut self, lba: u64, buf: &[u8]) -> Result<(), FsError>;

    /// Size of one block in bytes.
    fn block_size(&self) -> usize;

    /// Number of blocks on the device.
    fn num_blocks(&self) -> u64;

    /// Flush pending writes.
    fn flush(&mut self) -> Result<(), FsError>;
}

/// Asset loading failure.
#[derive(Debug, Clone)]
pub enum AssetError {
    /// Filesystem failure.
    Fs(FsError),
    /// Decoder failure with a diagnostic message.
    Decode(String),
}

/// Where a read from position `pos` starts in an asset of `len` bytes.
pub open spec fn read_start(pos: usize, len: usize) -> int {
    if pos <= len { pos as int } else { len as int }
}

/// Sequential byte reader over one opened asset.
///
/// Verified code reasons about a reader through three spec functions: its
/// length, its bytes and its read position. A reader outside verified code
/// implements each by returning what it holds.
pub trait AssetRead {
    /// What [`AssetRead::len`] reports.
    spec fn total_len(&self) -> usize;

    /// Byte `i` of the asset, for `i < total_len()`.
    spec fn byte_at(&self, i: usize) -> u8;

    /// Position of the next read.
    spec fn read_pos(&self) -> usize;

    /// Read up to `out.len()` bytes from the read position, returning the
    /// count read. The bytes go to the front of `out`, the rest of `out` is
    /// left alone, and the position advances by the count. A count of zero
    /// means `out` is empty or the end of the asset was reached.
    fn read(&mut self, out: &mut [u8]) -> (r: Result<usize, AssetError>)
        ensures
            final(out)@.len() == old(out)@.len(),
            final(self).total_len() == old(self).total_len(),
            forall|i: usize| #[trigger] final(self).byte_at(i) == old(self).byte_at(i),
            r matches Ok(n) ==> {
                let start = read_start(old(self).read_pos(), old(self).total_len());
                &&& n <= old(out)@.len()
                &&& start + n <= old(self).total_len()
                &&& final(out)@ == Seq::new(old(self).total_len() as nat, |i: int| old(self).byte_at(i as usize)).subrange(start, start + n)
                    + old(out)@.skip(n as int)
                &&& final(self).read_pos() == start + n
                &&& (n == 0 ==> old(out)@.len() == 0 || start == old(self).total_len())
            },
    ;

    /// Total length of the asset in bytes.
    fn len(&self) -> (r: usize)
        ensures
            r == self.total_len(),
    ;

    /// Whether the asset has no bytes.
    fn is_empty(&self) -> (r: bool)
        ensures
            r == (self.total_len() == 0),
    ;

    /// Move the read position, returning the new position.
    fn seek(&mut self, pos: u64) -> Result<u64, AssetError>;
}

/// All bytes of the asset behind `r`.
pub open spec fn reader_bytes<R: AssetRead + ?Sized>(r: &R) -> Seq<u8> {
    Seq::new(r.total_len() as nat, |i: int| r.byte_at(i as usize))
}

/// Placeholder directory listing.
pub struct AssetIter;

/// Source of named assets.
///
/// Verified code reasons about a source through what it stores under each
/// path: [`AssetSource::stored_len`] and [`AssetSource::stored_byte`]. A
/// source outside verified code implements them by returning what it
/// holds; what is stored depends only on the path's characters.
pub trait AssetSource {
    /// Length of the asset stored under `path`, or `None` when absent.
    spec fn stored_len(&self, path: &str) -> Option<usize>;

    /// Byte `i` of the asset stored under `path`.
    spec fn stored_byte(&self, path: &str, i: usize) -> u8;

    /// Open `path` for reading: a successful open gives a reader over the
    /// stored bytes, positioned at the start.
    fn open<'a>(&'a self, path: &str) -> (r: Result<Box<dyn AssetRead + 'a>, AssetError>)
        ensures
            r matches Ok(rd) ==> {
                let p = path_named(path@);
                &&& self.stored_len(p) == Some(rd.total_len())
                &&& forall|i: usize| i < rd.total_len() ==> #[trigger] self.stored_byte(p, i) == rd.byte_at(i)
                &&& rd.read_pos() == 0
            },
    ;

    /// Whether an asset named `path` is present.
    fn contains(&self, path: &str) -> (r: bool)
        ensures
            r == (self.stored_len(path_named(path@)) is Some),
    ;

    /// List the entries of `dir`.
    fn list(&self, dir: &str) -> Result<AssetIter, AssetError>;
}

/// A path string with the characters `s`.
pub open spec fn path_named(s: Seq<char>) -> &'static str {
    choose|p: &'static str| p@ == s
}

/// The bytes `src` stores under the path with characters `path`.
pub open spec fn source_contents<S: AssetSource + ?Sized>(src: &S, path: Seq<char>) -> Option<Seq<u8>> {
    let p = path_named(path);
    match src.stored_len(p) {
        Some(n) => Some(Seq::new(n as nat, |i: int| src.stored_byte(p, i as usize))),
        None => None,
    }
}

/// What a successful open promises, restated over whole byte sequences.
pub proof fn lemma_opened_contents<S: AssetSource + ?Sized, R: AssetRead + ?Sized>(src: &S, path: Seq<char>, rd: &R)
    requires
        src.stored_len(path_named(path)) == Some(rd.total_len()),
        forall|i: usize| i < rd.total_len() ==> #[trigger] src.stored_byte(path_named(path), i) == rd.byte_at(i),
    ensures
        source_contents(src, path) == Some(reader_bytes(rd)),
{
    let p = path_named(path);
    let a = Seq::new(rd.total_len() as nat, |i: int| src.stored_byte(p, i as usize));
    assert forall|i: int| 0 <= i < a.len() implies a[i] == reader_bytes(rd)[i] by {
        assert(src.stored_byte(p, i as usize) == rd.byte_at(i as usize));
    }
    assert(a =~= reader_bytes(rd));
}

/// Zero bytes, `n` of them.
pub open spec fn zeros(n: int) -> Seq<u8> {
    Seq::new(n as nat, |i: int| 0u8)
}

/// Drain `reader` into a buffer of its advertised length.
///
/// Reading stops early when the reader reports zero bytes; the rest of the
/// buffer then stays zero-filled. From the start of an asset this gives
/// exactly its bytes.
pub(crate) fn read_all(reader: &mut Box<dyn AssetRead + '_>) -> (r: Result<Vec<u8>, AssetError>)
    ensures
        r matches Ok(v) ==> {
            let d = reader_bytes(&**old(reader));
            let s0 = read_start(old(reader).read_pos(), old(reader).total_len());
            v@ == d.subrange(s0, d.len() as int) + zeros(s0)
        },
{
    let ghost d = reader_bytes(&**reader);
    let ghost s0 = read_start(reader.read_pos(), reader.total_len());
    let len = reader.len();
    let mut buf: Vec<u8> = Vec::new();
    let mut k: usize = 0;
    while k < len
        invariant
            k <= len,
            buf@.len() == k,
            forall|j: int| 0 <= j < k ==> buf@[j] == 0u8,
        decreases len - k,
    {
        buf.push(0u8);
        k = k + 1;
    }
    let mut off: usize = 0;
    proof {
        assert(buf@ =~= d.subrange(s0, s0) + zeros(len as int));
    }
    while off < len
        invariant
            off <= len,
            len == d.len(),
            0 <= s0 <= len,
            off <= len - s0,
            reader.total_len() == len,
            reader_bytes(&**reader) == d,
            read_start(reader.read_pos(), reader.total_len()) == s0 + off,
            buf@ == d.subrange(s0, s0 + off) + zeros(len - off),
        ensures
            buf@ == d.subrange(s0, len as int) + zeros(s0),
        decreases len - off,
    {
        if off > buf.len() {
            break;
        }
        let ghost r0 = *reader;
        let ghost b0 = buf@;
        let n = {
            let (_, tail) = buf.as_mut_slice().split_at_mut(off);
            reader.read(tail)?
        };
        proof {
            assert forall|i: int| 0 <= i < len implies #[trigger] reader_bytes(&**reader)[i] == d[i] by {
                assert(reader.byte_at(i as usize) == r0.byte_at(i as usize));
            }
            assert(reader_bytes(&**reader) =~= d);
        }
        if n == 0 {
            proof {
                assert(off == len - s0);
                assert(d.subrange(s0, s0 + off) =~= d.subrange(s0, len as int));
            }
            break;
        }
        proof {
            assert(buf@ =~= b0.subrange(0, off as int) + d.subrange(s0 + off, s0 + off + n) + b0.skip(off + n));
            assert(buf@ =~= d.subrange(s0, s0 + off + n) + zeros(len - off - n));
        }
        off = if n > len - off { len } else { off + n };
    }
    Ok(buf)
}

/// Asset access through one concrete source.
pub struct AssetManager<S: AssetSource> {
    source: S,
}

impl<S: AssetSource> AssetManager<S> {
    /// Wrap `source`.
    pub fn new(source: S) -> (r: Self)
        ensures
            r.source() == source,
    {
        AssetManager { source }
    }

    /// The wrapped source.
    pub closed spec fn source(&self) -> S {
        self.source
    }

    /// Open `path` through the wrapped source.
    ///
    /// Success rests on the source; a reader it gives covers the bytes
    /// stored under `path`, from the start.
    pub fn open(&self, path: &str) -> (r: Result<Box<dyn AssetRead + '_>, AssetError>)
        ensures
            r matches Ok(rd) ==> source_contents(&self.source(), path@) == Some(reader_bytes(&*rd))
                && rd.read_pos() == 0,
    {
        let r = self.source.open(path);
        proof {
            if let Ok(rd) = &r {
                lemma_opened_contents(&self.source, path@, &**rd);
            }
        }
        r
    }

    /// Read the whole asset at `path`.
    ///
    /// Success rests on the source; what is read is exactly the bytes it
    /// stores under `path`.
    pub fn load_bytes(&self, path: &str) -> (r: Result<Vec<u8>, AssetError>)
        ensures
            r matches Ok(v) ==> source_contents(&self.source(), path@) == Some(v@),
    {
        let mut reader = self.source.open(path)?;
        let ghost d = reader_bytes(&*reader);
        proof {
            lemma_opened_contents(&self.source, path@, &*reader);
        }
        let bytes = read_all(&mut reader)?;
        proof {
            assert(d.subrange(0, d.len() as int) + zeros(0) =~= d);
        }
        Ok(bytes)
    }
}

} // verus!
