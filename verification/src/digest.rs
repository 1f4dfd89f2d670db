//! MD5 digests, of bytes that come piece by piece.

use md5::Digest;
use vstd::prelude::*;

verus! {

/// The MD5 digest of bytes.
pub uninterp spec fn md5_digest(bytes: Seq<u8>) -> Seq<u8>;

/// A digest that is still being made: an `md5::Md5` and what it was fed.
#[verifier::external_body]
pub struct RunningDigest {
    state: md5::Md5,
}

/// The bytes that a running digest was fed, in their order.
pub uninterp spec fn fed(digest: &RunningDigest) -> Seq<u8>;

/// `md5::Md5::new`: a digest that was fed nothing.
#[verifier::external_body]
fn start_digest() -> (digest: RunningDigest)
    ensures
        fed(&digest) == Seq::<u8>::empty(),
{
    RunningDigest { state: md5::Md5::new() }
}

/// `update` of `md5::Md5`: the bytes come after those that were fed before.
#[verifier::external_body]
fn feed(digest: &mut RunningDigest, bytes: &[u8])
    ensures
        fed(final(digest)) == fed(old(digest)) + bytes@,
{
    digest.state.update(bytes);
}

/// `finalize` of `md5::Md5`: the digest of all the bytes that were fed, which has
/// sixteen bytes and depends on nothing else.
#[verifier::external_body]
fn end_digest(digest: RunningDigest) -> (bytes: Vec<u8>)
    ensures
        bytes@ == md5_digest(fed(&digest)),
        bytes@.len() == 16,
{
    digest.state.finalize().to_vec()
}

/// A digit of a number in base sixteen.
pub open spec fn hex_digit(n: int) -> char {
    if n < 10 {
        (n + '0' as int) as char
    } else {
        (n - 10 + 'a' as int) as char
    }
}

/// Bytes in base sixteen, two digits for each.
pub open spec fn hex(bytes: Seq<u8>) -> Seq<char>
    decreases bytes.len(),
{
    if bytes.len() == 0 {
        Seq::empty()
    } else {
        hex(bytes.drop_last()).push(hex_digit((bytes.last() / 16) as int)).push(
            hex_digit((bytes.last() % 16) as int),
        )
    }
}

fn hex_char(n: u8) -> (c: char)
    requires
        n < 16,
    ensures
        c == hex_digit(n as int),
{
    match n {
        0 => '0',
        1 => '1',
        2 => '2',
        3 => '3',
        4 => '4',
        5 => '5',
        6 => '6',
        7 => '7',
        8 => '8',
        9 => '9',
        10 => 'a',
        11 => 'b',
        12 => 'c',
        13 => 'd',
        14 => 'e',
        _ => 'f',
    }
}

/// Bytes in base sixteen.
pub fn to_hex(bytes: &Vec<u8>) -> (out: String)
    ensures
        out@ == hex(bytes@),
{
    let mut out = String::new();
    let mut k: usize = 0;
    while k < bytes.len()
        invariant
            k <= bytes@.len(),
            out@ == hex(bytes@.take(k as int)),
        decreases bytes@.len() - k,
    {
        let byte = bytes[k];
        out.push(hex_char(byte / 16));
        out.push(hex_char(byte % 16));
        k = k + 1;
        proof {
            assert(bytes@.take(k as int).drop_last() =~= bytes@.take(k - 1));
            assert(bytes@.take(k as int).last() == byte);
        }
    }
    assert(bytes@.take(k as int) =~= bytes@);
    out
}

proof fn lemma_hex_length(bytes: Seq<u8>)
    ensures
        hex(bytes).len() == 2 * bytes.len(),
    decreases bytes.len(),
{
    if bytes.len() > 0 {
        lemma_hex_length(bytes.drop_last());
    }
}

/// The digest of bytes as it is written.
pub open spec fn md5_text(bytes: Seq<u8>) -> Seq<char> {
    hex(md5_digest(bytes))
}

impl View for RunningDigest {
    type V = Seq<u8>;

    open spec fn view(&self) -> Seq<u8> {
        fed(self)
    }
}

impl RunningDigest {
    pub fn new() -> (digest: RunningDigest)
        ensures
            digest@ == Seq::<u8>::empty(),
    {
        start_digest()
    }

    /// Takes in bytes.
    pub fn update(&mut self, bytes: &[u8])
        ensures
            final(self)@ == old(self)@ + bytes@,
    {
        feed(self, bytes);
    }

    /// The digest of all that was taken in, as it is written.
    pub fn finish(self) -> (out: String)
        ensures
            out@ == md5_text(self@),
            out@.len() == 32,
    {
        let digest = end_digest(self);
        proof {
            lemma_hex_length(digest@);
        }
        to_hex(&digest)
    }
}

/// Pieces one after the other.
pub open spec fn joined(pieces: Seq<Seq<u8>>) -> Seq<u8>
    decreases pieces.len(),
{
    if pieces.len() == 0 {
        Seq::empty()
    } else {
        joined(pieces.drop_last()) + pieces.last()
    }
}

/// What a running digest has been fed after further pieces.
pub open spec fn fed_further(before: Seq<u8>, pieces: Seq<Seq<u8>>) -> Seq<u8>
    decreases pieces.len(),
{
    if pieces.len() == 0 {
        before
    } else {
        fed_further(before, pieces.drop_last()) + pieces.last()
    }
}

proof fn lemma_fed_further(before: Seq<u8>, pieces: Seq<Seq<u8>>)
    ensures
        fed_further(before, pieces) == before + joined(pieces),
    decreases pieces.len(),
{
    if pieces.len() == 0 {
        assert(before + joined(pieces) =~= before);
    } else {
        lemma_fed_further(before, pieces.drop_last());
        assert(fed_further(before, pieces) =~= before + joined(pieces));
    }
}

/// A file that is gone on with has the digest of the whole file: the start of it
/// is taken in first, and then what is missing, in whatever pieces it comes.
pub proof fn law_resumed_digest_is_that_of_the_file(
    file: Seq<u8>,
    offset: int,
    pieces: Seq<Seq<u8>>,
)
    requires
        0 <= offset <= file.len(),
        joined(pieces) == file.skip(offset),
    ensures
        fed_further(file.take(offset), pieces) == file,
        md5_text(fed_further(file.take(offset), pieces)) == md5_text(file),
{
    lemma_fed_further(file.take(offset), pieces);
    assert(file.take(offset) + file.skip(offset) =~= file);
}

/// As many bytes as are wanted, read piece by piece and digested.
pub struct ExactRead {
    digest: RunningDigest,
    total: u64,
    remaining: u64,
}

impl ExactRead {
    /// The bytes that were read.
    pub closed spec fn bytes(&self) -> Seq<u8> {
        self.digest@
    }

    /// How many bytes are wanted.
    pub closed spec fn wanted(&self) -> u64 {
        self.total
    }

    /// How many bytes are missing.
    pub closed spec fn missing(&self) -> u64 {
        self.remaining
    }

    pub open spec fn wf(&self) -> bool {
        self.missing() <= self.wanted() && self.bytes().len() == self.wanted() - self.missing()
    }

    pub fn new(total: u64) -> (read: ExactRead)
        ensures
            read.wf(),
            read.bytes() == Seq::<u8>::empty(),
            read.wanted() == total,
            read.missing() == total,
    {
        ExactRead { digest: RunningDigest::new(), total, remaining: total }
    }

    /// How many bytes are wanted.
    pub fn total(&self) -> (bytes: u64)
        ensures
            bytes == self.wanted(),
    {
        self.total
    }

    /// How many bytes are missing.
    pub fn remaining(&self) -> (bytes: u64)
        ensures
            bytes == self.missing(),
    {
        self.remaining
    }

    /// How many bytes are read next: all that are missing, or as many as a buffer
    /// takes.
    pub fn next_bytes(&self, buffer: usize) -> (bytes: usize)
        ensures
            bytes == (if self.missing() <= buffer {
                self.missing() as int
            } else {
                buffer as int
            }),
    {
        if self.remaining <= buffer as u64 {
            self.remaining as usize
        } else {
            buffer
        }
    }

    /// Takes in the bytes that were read next.
    pub fn take(&mut self, bytes: &[u8])
        requires
            old(self).wf(),
            bytes@.len() <= old(self).missing(),
        ensures
            final(self).wf(),
            final(self).bytes() == old(self).bytes() + bytes@,
            final(self).wanted() == old(self).wanted(),
            final(self).missing() == old(self).missing() - bytes@.len(),
    {
        self.digest.update(bytes);
        self.remaining = self.remaining - bytes.len() as u64;
    }

    /// The running digest of what was read.
    pub fn into_digest(self) -> (digest: RunningDigest)
        ensures
            digest@ == self.bytes(),
    {
        self.digest
    }
}

/// A number of bytes as it is counted.
pub open spec fn counted(bytes: nat) -> u64 {
    if bytes <= u64::MAX {
        bytes as u64
    } else {
        u64::MAX
    }
}

/// Bytes that go by: counted and digested.
pub struct ByteStream {
    digest: RunningDigest,
    count: u64,
}

/// What went by: how many bytes, and their digest.
pub struct CopiedFileDigest {
    pub bytes: u64,
    pub md5: String,
}

impl ByteStream {
    /// The bytes that went by.
    pub closed spec fn bytes(&self) -> Seq<u8> {
        self.digest@
    }

    pub closed spec fn wf(&self) -> bool {
        self.count == counted(self.digest@.len())
    }

    pub fn new() -> (stream: ByteStream)
        ensures
            stream.wf(),
            stream.bytes() == Seq::<u8>::empty(),
    {
        ByteStream { digest: RunningDigest::new(), count: 0 }
    }

    /// How many bytes went by.
    pub fn count(&self) -> (count: u64)
        requires
            self.wf(),
        ensures
            count == counted(self.bytes().len()),
    {
        self.count
    }

    /// Takes in the bytes that go by next.
    pub fn take(&mut self, bytes: &[u8])
        requires
            old(self).wf(),
        ensures
            final(self).wf(),
            final(self).bytes() == old(self).bytes() + bytes@,
    {
        self.digest.update(bytes);
        self.count = self.count.saturating_add(bytes.len() as u64);
    }

    /// What went by.
    pub fn finish(self) -> (digest: CopiedFileDigest)
        requires
            self.wf(),
        ensures
            digest.bytes == counted(self.bytes().len()),
            digest.md5@ == md5_text(self.bytes()),
    {
        let count = self.count;
        CopiedFileDigest { bytes: count, md5: self.digest.finish() }
    }
}

} // verus!
