//! The header in front of each chunk of a file.

use vstd::prelude::*;

verus! {

/// Bytes in the header of a chunk.
pub const CHANNEL_CHUNK_HEADER_LEN: usize = 17;

/// Flag bit of the last chunk of a file.
pub const FLAG_EOF: u8 = 1;

/// Bytes of a file in one chunk.
pub const FILE_CHUNK_SIZE: usize = 65536;

/// The header of a chunk: which transfer it belongs to, where its bytes go, how many there are,
/// and whether they are the last ones.
#[derive(Debug, Clone, Copy, PartialEq, Eq, Structural)]
pub struct ChannelChunkHeader {
    pub transfer_id: u32,
    pub offset: u64,
    pub chunk_len: u32,
    pub flags: u8,
}

/// The four bytes of a number, the most significant first.
pub open spec fn be32(n: u32) -> Seq<u8> {
    seq![
        (n / 0x100_0000) as u8,
        ((n / 0x1_0000) % 0x100) as u8,
        ((n / 0x100) % 0x100) as u8,
        (n % 0x100) as u8,
    ]
}

/// The number of four bytes, the most significant first.
pub open spec fn num32(b: Seq<u8>) -> u32 {
    (b[0] * 0x100_0000 + b[1] * 0x1_0000 + b[2] * 0x100 + b[3]) as u32
}

proof fn lemma_be32(n: u32)
    ensures
        be32(n).len() == 4,
        num32(be32(n)) == n,
{
    let a = n / 0x100_0000;
    let b = (n / 0x1_0000) % 0x100;
    let c = (n / 0x100) % 0x100;
    let d = n % 0x100;
    assert(a < 0x100 && b < 0x100 && c < 0x100 && d < 0x100 && a * 0x100_0000 + b * 0x1_0000 + c
        * 0x100 + d == n) by (bit_vector)
        requires
            a == n / 0x100_0000,
            b == (n / 0x1_0000) % 0x100,
            c == (n / 0x100) % 0x100,
            d == n % 0x100,
    ;
}

fn push32(out: &mut Vec<u8>, n: u32)
    ensures
        final(out)@ == old(out)@ + be32(n),
{
    proof {
        assert(n / 0x100_0000 < 0x100) by (bit_vector);
    }
    out.push((n / 0x100_0000) as u8);
    out.push(((n / 0x1_0000) % 0x100) as u8);
    out.push(((n / 0x100) % 0x100) as u8);
    out.push((n % 0x100) as u8);
    assert(out@ =~= old(out)@ + be32(n));
}

fn read32(b: &Vec<u8>, at: usize) -> (r: u32)
    requires
        at + 4 <= b.len(),
    ensures
        r == num32(b@.subrange(at as int, at + 4)),
{
    b[at] as u32 * 0x100_0000 + b[at + 1] as u32 * 0x1_0000 + b[at + 2] as u32 * 0x100 + b[at
        + 3] as u32
}

impl ChannelChunkHeader {
    /// The bytes of a header.
    pub open spec fn bytes(self) -> Seq<u8> {
        be32(self.transfer_id) + be32((self.offset / 0x1_0000_0000) as u32) + be32(
            (self.offset % 0x1_0000_0000) as u32,
        ) + be32(self.chunk_len) + seq![self.flags]
    }

    /// The header at the start of a payload; `None` when the payload is too short for one.
    pub open spec fn parsed(payload: Seq<u8>) -> Option<ChannelChunkHeader> {
        if payload.len() < 17 {
            None
        } else {
            Some(
                ChannelChunkHeader {
                    transfer_id: num32(payload.subrange(0, 4)),
                    offset: (num32(payload.subrange(4, 8)) * 0x1_0000_0000 + num32(
                        payload.subrange(8, 12),
                    )) as u64,
                    chunk_len: num32(payload.subrange(12, 16)),
                    flags: payload[16],
                },
            )
        }
    }

    /// Whether this is the last chunk.
    pub open spec fn eof(self) -> bool {
        self.flags & FLAG_EOF != 0
    }

    /// Whether this is the last chunk.
    pub fn is_eof(&self) -> (r: bool)
        ensures
            r == self.eof(),
    {
        self.flags & FLAG_EOF != 0
    }

    /// The bytes of this header.
    pub fn encode(&self) -> (r: Vec<u8>)
        ensures
            r@ == self.bytes(),
            r@.len() == CHANNEL_CHUNK_HEADER_LEN,
    {
        let mut r: Vec<u8> = Vec::new();
        push32(&mut r, self.transfer_id);
        push32(&mut r, (self.offset / 0x1_0000_0000) as u32);
        push32(&mut r, (self.offset % 0x1_0000_0000) as u32);
        push32(&mut r, self.chunk_len);
        r.push(self.flags);
        assert(r@ =~= self.bytes());
        r
    }

    /// The header at the start of a payload.
    pub fn decode(payload: &Vec<u8>) -> (r: Option<ChannelChunkHeader>)
        ensures
            r == ChannelChunkHeader::parsed(payload@),
    {
        if payload.len() < CHANNEL_CHUNK_HEADER_LEN {
            return None;
        }
        let hi: u32 = read32(payload, 4);
        let lo: u32 = read32(payload, 8);
        Some(
            ChannelChunkHeader {
                transfer_id: read32(payload, 0),
                offset: hi as u64 * 0x1_0000_0000 + lo as u64,
                chunk_len: read32(payload, 12),
                flags: payload[16],
            },
        )
    }
}

/// The bytes of a chunk: what stands behind its header, as far as the header says.
pub open spec fn chunk_bytes(header: ChannelChunkHeader, payload: Seq<u8>) -> Seq<u8> {
    payload.subrange(
        CHANNEL_CHUNK_HEADER_LEN as int,
        CHANNEL_CHUNK_HEADER_LEN + header.chunk_len,
    )
}

/// The bytes of a chunk, cut out of its payload.
pub fn chunk_data(header: &ChannelChunkHeader, payload: &Vec<u8>) -> (r: Vec<u8>)
    requires
        payload@.len() >= CHANNEL_CHUNK_HEADER_LEN + header.chunk_len,
    ensures
        r@ == chunk_bytes(*header, payload@),
{
    let len: usize = payload.len();
    assert(CHANNEL_CHUNK_HEADER_LEN + header.chunk_len <= len);
    let end: usize = CHANNEL_CHUNK_HEADER_LEN + header.chunk_len as usize;
    let mut r: Vec<u8> = Vec::new();
    let mut i: usize = CHANNEL_CHUNK_HEADER_LEN;
    while i < end
        invariant
            CHANNEL_CHUNK_HEADER_LEN <= i <= end,
            end <= payload@.len(),
            r@ == payload@.subrange(CHANNEL_CHUNK_HEADER_LEN as int, i as int),
        decreases end - i,
    {
        r.push(payload[i]);
        i += 1;
        assert(r@ =~= payload@.subrange(CHANNEL_CHUNK_HEADER_LEN as int, i as int));
    }
    r
}

/// Reading a header gives back what was written, whatever follows it.
pub proof fn law_header_round_trip(h: ChannelChunkHeader, rest: Seq<u8>)
    ensures
        ChannelChunkHeader::parsed(h.bytes() + rest) == Some(h),
{
    let hi = (h.offset / 0x1_0000_0000) as u32;
    let lo = (h.offset % 0x1_0000_0000) as u32;
    lemma_be32(h.transfer_id);
    lemma_be32(hi);
    lemma_be32(lo);
    lemma_be32(h.chunk_len);
    let p = h.bytes() + rest;
    assert(p.subrange(0, 4) =~= be32(h.transfer_id));
    assert(p.subrange(4, 8) =~= be32(hi));
    assert(p.subrange(8, 12) =~= be32(lo));
    assert(p.subrange(12, 16) =~= be32(h.chunk_len));
    assert(p[16] == h.flags);
}

/// A header that was written is read back as it was, whatever stands behind it; and it says that it is
/// the last one by its lowest flag.
pub proof fn law_written_header_is_read_back(
    h: &ChannelChunkHeader,
    written: Vec<u8>,
    payload: &Vec<u8>,
    rest: Seq<u8>,
    r: Option<ChannelChunkHeader>,
    last: bool,
)
    requires
        call_ensures(ChannelChunkHeader::encode, (h,), written),
        payload@ == written@ + rest,
        call_ensures(ChannelChunkHeader::decode, (payload,), r),
        call_ensures(ChannelChunkHeader::is_eof, (h,), last),
    ensures
        r == Some(*h),
        last <==> h.flags % 2 == 1,
{
    law_header_round_trip(*h, rest);
    let f = h.flags;
    assert((f & FLAG_EOF != 0) <==> f % 2 == 1) by (bit_vector)
        requires
            FLAG_EOF == 1u8,
    ;
}

/// A header stands at the front of a chunk with its numbers in network order: transfer, offset and
/// length, and then the flags.
pub proof fn law_header_is_in_network_order(h: &ChannelChunkHeader, r: Vec<u8>)
    requires
        call_ensures(ChannelChunkHeader::encode, (h,), r),
    ensures
        r@.len() == 17,
        r@[0] * 0x100_0000 + r@[1] * 0x1_0000 + r@[2] * 0x100 + r@[3] == h.transfer_id,
        r@[12] * 0x100_0000 + r@[13] * 0x1_0000 + r@[14] * 0x100 + r@[15] == h.chunk_len,
        r@[16] == h.flags,
        r@[11] == h.offset % 0x100,
{
    lemma_be32(h.transfer_id);
    lemma_be32(h.chunk_len);
    lemma_be32_sum(h.transfer_id);
    lemma_be32_sum(h.chunk_len);
    let lo = (h.offset % 0x1_0000_0000) as u32;
    lemma_be32_sum(lo);
    let o = h.offset;
    assert((o % 0x1_0000_0000) % 0x100 == o % 0x100) by (bit_vector);
    assert(r@[11] == be32(lo)[3]);
}

proof fn lemma_be32_sum(n: u32)
    ensures
        be32(n)[0] * 0x100_0000 + be32(n)[1] * 0x1_0000 + be32(n)[2] * 0x100 + be32(n)[3] == n,
        be32(n)[3] == n % 0x100,
{
    let a = n / 0x100_0000;
    let b = (n / 0x1_0000) % 0x100;
    let c = (n / 0x100) % 0x100;
    let d = n % 0x100;
    assert(a < 0x100 && b < 0x100 && c < 0x100 && d < 0x100 && a * 0x100_0000 + b * 0x1_0000 + c
        * 0x100 + d == n) by (bit_vector)
        requires
            a == n / 0x100_0000,
            b == (n / 0x1_0000) % 0x100,
            c == (n / 0x100) % 0x100,
            d == n % 0x100,
    ;
}

} // verus!
