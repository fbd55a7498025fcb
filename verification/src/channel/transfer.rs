//! A file on its way: what the sender of a file sends is what the other end receives.

use vstd::prelude::*;

use crate::channel::chunk::{
    chunk_bytes, ChannelChunkHeader, CHANNEL_CHUNK_HEADER_LEN, FILE_CHUNK_SIZE, FLAG_EOF,
};
use crate::channel::outbound::{
    chunk_payload, law_chunk_understood, PumpInput, PumpModel, PumpPhase,
};
use crate::channel::session::{byte_limit, ChunkFate, PeerModel, ReceivedModel};

verus! {

/// A chunk as it is sent.
pub struct ChunkModel {
    pub header: ChannelChunkHeader,
    pub data: Seq<u8>,
}

impl ChunkModel {
    /// The payload of the frame of a chunk.
    pub open spec fn payload(self) -> Seq<u8> {
        chunk_payload(self.header, self.data)
    }
}

/// The sum of the lengths of reads.
pub open spec fn total(reads: Seq<usize>) -> nat
    decreases reads.len(),
{
    if reads.len() == 0 {
        0
    } else {
        reads[0] as nat + total(reads.drop_first())
    }
}

/// Whether reads of these lengths bring `len` bytes: each brings some, none brings more than a chunk
/// holds, and together they bring all. Of nothing there is one read, which brings nothing.
pub open spec fn reads_of(len: nat, reads: Seq<usize>) -> bool {
    if len == 0 {
        reads == seq![0usize]
    } else {
        &&& forall|i: int| 0 <= i < reads.len() ==> 0 < #[trigger] reads[i] <= FILE_CHUNK_SIZE
        &&& total(reads) == len
    }
}

/// The pump of a file that was accepted and opened, of which `at` bytes are sent.
pub open spec fn sending(transfer_id: u32, name: Seq<char>, size: u64, at: nat) -> PumpModel {
    PumpModel { transfer_id, name, size, offset: at as u64, phase: PumpPhase::Read }
}

/// The pump after a read of `n` bytes was sent.
pub open spec fn pump_after(m: PumpModel, n: usize) -> PumpModel {
    m.step(PumpInput::Read(Ok(n))).0.step(PumpInput::Sent(Ok(()))).0
}

/// The pump after reads of the given lengths were sent.
pub open spec fn pump_at_end(m: PumpModel, reads: Seq<usize>) -> PumpModel
    decreases reads.len(),
{
    if reads.len() == 0 {
        m
    } else {
        pump_at_end(pump_after(m, reads[0]), reads.drop_first())
    }
}

/// Whether the pump can take reads of the given lengths, each followed by the news that the chunk
/// was sent.
pub open spec fn pump_follows(m: PumpModel, reads: Seq<usize>) -> bool
    decreases reads.len(),
{
    reads.len() == 0 || {
        &&& m.expects(PumpInput::Read(Ok(reads[0])))
        &&& m.step(PumpInput::Read(Ok(reads[0]))).0.expects(PumpInput::Sent(Ok(())))
        &&& pump_follows(pump_after(m, reads[0]), reads.drop_first())
    }
}

/// The chunks that the pump of a file sends when it is read with the given lengths: each has the
/// header that the pump asks for, and the bytes that were read.
pub open spec fn transmission(m: PumpModel, file: Seq<u8>, reads: Seq<usize>) -> Seq<ChunkModel>
    decreases reads.len(),
{
    if reads.len() == 0 {
        Seq::empty()
    } else {
        let n = reads[0];
        let chunk = ChunkModel {
            header: m.step(PumpInput::Read(Ok(n))).2->Send_0,
            data: file.subrange(m.offset as int, m.offset + n),
        };
        seq![chunk] + transmission(pump_after(m, n), file, reads.drop_first())
    }
}

/// The bytes of chunks, one after the other.
pub open spec fn joined(chunks: Seq<ChunkModel>) -> Seq<u8>
    decreases chunks.len(),
{
    if chunks.len() == 0 {
        Seq::empty()
    } else {
        chunks[0].data + joined(chunks.drop_first())
    }
}

/// The receiving end before the `i`-th of the chunks: all before it were written.
pub open spec fn receiving(p: PeerModel, chunks: Seq<ChunkModel>, i: nat) -> PeerModel
    decreases i,
{
    if i == 0 {
        p
    } else {
        receiving(p, chunks, (i - 1) as nat).after_chunk(chunks[i - 1].header)
    }
}

/// What is sent of a file is the file, however short the reads are: the bytes of its chunks, one
/// after the other, are the bytes of the file, each chunk begins where the one before it ended,
/// and exactly the last one is marked as the last one. Then the sender waits for the
/// acknowledgement.
pub proof fn law_file_is_sent_whole(
    transfer_id: u32,
    name: Seq<char>,
    file: Seq<u8>,
    reads: Seq<usize>,
)
    requires
        file.len() <= u64::MAX,
        reads_of(file.len(), reads),
    ensures
        ({
            let m = sending(transfer_id, name, file.len() as u64, 0);
            let chunks = transmission(m, file, reads);
            let end = pump_at_end(m, reads);
            &&& pump_follows(m, reads)
            &&& chunks.len() == reads.len() > 0
            &&& joined(chunks) == file
            &&& chunks[0].header.offset == 0
            &&& forall|i: int|
                0 <= i < chunks.len() ==> {
                    &&& (#[trigger] chunks[i]).header.transfer_id == transfer_id
                    &&& chunks[i].header.chunk_len == chunks[i].data.len() == reads[i]
                    &&& chunks[i].header.eof() <==> i == chunks.len() - 1
                }
            &&& forall|i: int|
                0 < i < chunks.len() ==> (#[trigger] chunks[i]).header.offset == chunks[i
                    - 1].header.offset + chunks[i - 1].header.chunk_len
            &&& end.phase == PumpPhase::Ack
            &&& end.offset == file.len()
        }),
{
    assert(FLAG_EOF & FLAG_EOF != 0) by (bit_vector);
    let m = sending(transfer_id, name, file.len() as u64, 0);
    if file.len() == 0 {
        let chunks = transmission(m, file, reads);
        assert(reads.drop_first() =~= Seq::<usize>::empty());
        assert(transmission(pump_after(m, 0), file, reads.drop_first()) =~= Seq::empty());
        assert(chunks.drop_first() =~= Seq::<ChunkModel>::empty());
        assert(joined(chunks.drop_first()) =~= Seq::<u8>::empty());
        assert(joined(chunks) =~= file);
        assert(pump_at_end(pump_after(m, 0), reads.drop_first()) == pump_after(m, 0));
        assert(pump_follows(pump_after(m, 0), reads.drop_first()));
    } else {
        lemma_rest_is_sent(transfer_id, name, file, 0, reads);
        assert(file.skip(0) =~= file);
    }
}

proof fn lemma_rest_is_sent(
    transfer_id: u32,
    name: Seq<char>,
    file: Seq<u8>,
    at: nat,
    reads: Seq<usize>,
)
    requires
        file.len() <= u64::MAX,
        at < file.len(),
        forall|i: int| 0 <= i < reads.len() ==> 0 < #[trigger] reads[i] <= FILE_CHUNK_SIZE,
        total(reads) == file.len() - at,
    ensures
        ({
            let m = sending(transfer_id, name, file.len() as u64, at);
            let chunks = transmission(m, file, reads);
            let end = pump_at_end(m, reads);
            &&& pump_follows(m, reads)
            &&& chunks.len() == reads.len() > 0
            &&& joined(chunks) == file.skip(at as int)
            &&& chunks[0].header.offset == at
            &&& forall|i: int|
                0 <= i < chunks.len() ==> {
                    &&& (#[trigger] chunks[i]).header.transfer_id == transfer_id
                    &&& chunks[i].header.chunk_len == chunks[i].data.len() == reads[i]
                    &&& chunks[i].header.offset + chunks[i].header.chunk_len <= file.len()
                    &&& chunks[i].header.eof() <==> i == chunks.len() - 1
                }
            &&& forall|i: int|
                0 < i < chunks.len() ==> (#[trigger] chunks[i]).header.offset == chunks[i
                    - 1].header.offset + chunks[i - 1].header.chunk_len
            &&& end.phase == PumpPhase::Ack
            &&& end.offset == file.len()
        }),
    decreases reads.len(),
{
    assert(FLAG_EOF & FLAG_EOF != 0) by (bit_vector);
    assert(0u8 & FLAG_EOF == 0) by (bit_vector);
    let m = sending(transfer_id, name, file.len() as u64, at);
    let chunks = transmission(m, file, reads);
    let n = reads[0];
    let next = pump_after(m, n);
    let left = reads.drop_first();
    let rest = transmission(next, file, left);
    assert(chunks.drop_first() =~= rest);
    assert(at + n <= file.len());
    if left.len() == 0 {
        assert(rest =~= Seq::empty());
        assert(joined(rest) =~= Seq::<u8>::empty());
        assert(total(left) == 0);
        assert(joined(chunks) =~= file.skip(at as int));
        assert(pump_at_end(next, left) == next);
        assert(pump_follows(next, left));
    } else {
        assert(left[0] == reads[1]);
        assert(total(left) > 0);
        assert(next == sending(transfer_id, name, file.len() as u64, at + n as nat));
        lemma_rest_is_sent(transfer_id, name, file, at + n as nat, left);
        assert(joined(chunks) =~= file.skip(at as int));
        assert forall|i: int| 0 <= i < chunks.len() implies {
            &&& (#[trigger] chunks[i]).header.transfer_id == transfer_id
            &&& chunks[i].header.chunk_len == chunks[i].data.len() == reads[i]
            &&& chunks[i].header.offset + chunks[i].header.chunk_len <= file.len()
            &&& chunks[i].header.eof() <==> i == chunks.len() - 1
        } by {
            if i > 0 {
                assert(chunks[i] == rest[i - 1]);
            }
        }
        assert forall|i: int| 0 < i < chunks.len() implies (#[trigger] chunks[i]).header.offset
            == chunks[i - 1].header.offset + chunks[i - 1].header.chunk_len by {
            assert(chunks[i] == rest[i - 1]);
            if i > 1 {
                assert(chunks[i - 1] == rest[i - 2]);
            }
        }
    }
}

/// A file arrives whole, however short the reads of the sender are: the other end, which accepted
/// the offer, is to write each chunk, and what is written of them, one after the other, is the
/// file; it is complete with the last chunk and with no other, and its transfer is over then.
pub proof fn law_file_arrives_whole(
    transfer_id: u32,
    name: Seq<char>,
    file: Seq<u8>,
    reads: Seq<usize>,
    p: PeerModel,
)
    requires
        file.len() <= u64::MAX,
        reads_of(file.len(), reads),
        p.inbounds.dom().contains(transfer_id),
        p.inbounds[transfer_id].size == file.len(),
        p.inbounds[transfer_id].transferred == 0,
    ensures
        ({
            let m = sending(transfer_id, name, file.len() as u64, 0);
            let chunks = transmission(m, file, reads);
            let t = p.inbounds[transfer_id];
            &&& joined(chunks) == file
            &&& forall|i: int|
                0 <= i < chunks.len() ==> {
                    let before = receiving(p, chunks, i as nat);
                    let c = #[trigger] chunks[i];
                    &&& before.chunk_fate(c.payload()) == ChunkFate::Write(c.header)
                    &&& chunk_bytes(c.header, c.payload()) == c.data
                    &&& before.completed(c.header) == (if i == chunks.len() - 1 {
                        Some(ReceivedModel { transfer_id, name: t.name, tmp_path: t.tmp_path })
                    } else {
                        None
                    })
                }
            &&& receiving(p, chunks, chunks.len()) == (PeerModel {
                inbounds: p.inbounds.remove(transfer_id),
                ..p
            })
        }),
{
    law_file_is_sent_whole(transfer_id, name, file, reads);
    let m = sending(transfer_id, name, file.len() as u64, 0);
    let chunks = transmission(m, file, reads);
    let t = p.inbounds[transfer_id];
    assert forall|i: int| 0 <= i < chunks.len() implies {
        let before = receiving(p, chunks, i as nat);
        let c = #[trigger] chunks[i];
        &&& before.chunk_fate(c.payload()) == ChunkFate::Write(c.header)
        &&& chunk_bytes(c.header, c.payload()) == c.data
        &&& before.completed(c.header) == (if i == chunks.len() - 1 {
            Some(ReceivedModel { transfer_id, name: t.name, tmp_path: t.tmp_path })
        } else {
            None
        })
    } by {
        let c = chunks[i];
        lemma_arrived(transfer_id, name, file, reads, p, i as nat);
        law_chunk_understood(c.header, c.data);
        assert(chunk_bytes(c.header, c.payload()) =~= c.payload().skip(
            CHANNEL_CHUNK_HEADER_LEN as int,
        ));
    }
    let last = (chunks.len() - 1) as nat;
    lemma_arrived(transfer_id, name, file, reads, p, last);
    assert(receiving(p, chunks, chunks.len()) == receiving(p, chunks, last).after_chunk(
        chunks[last as int].header,
    ));
    assert(receiving(p, chunks, chunks.len()).inbounds =~= p.inbounds.remove(transfer_id));
}

/// Before its `i`-th chunk, the bytes of a transfer that are counted are those before that chunk.
proof fn lemma_arrived(
    transfer_id: u32,
    name: Seq<char>,
    file: Seq<u8>,
    reads: Seq<usize>,
    p: PeerModel,
    i: nat,
)
    requires
        file.len() <= u64::MAX,
        reads_of(file.len(), reads),
        p.inbounds.dom().contains(transfer_id),
        p.inbounds[transfer_id].size == file.len(),
        p.inbounds[transfer_id].transferred == 0,
        i < reads.len(),
    ensures
        ({
            let m = sending(transfer_id, name, file.len() as u64, 0);
            let chunks = transmission(m, file, reads);
            let q = receiving(p, chunks, i);
            let t = p.inbounds[transfer_id];
            let offset = chunks[i as int].header.offset;
            &&& q.inbounds.dom().contains(transfer_id)
            &&& q.inbounds[transfer_id].transferred == offset
            &&& q.inbounds[transfer_id].size == t.size
            &&& q.inbounds[transfer_id].name == t.name
            &&& q.inbounds[transfer_id].tmp_path == t.tmp_path
            &&& q.inbounds.remove(transfer_id) == p.inbounds.remove(transfer_id)
            &&& q == (PeerModel { inbounds: q.inbounds, ..p })
            &&& offset + chunks[i as int].header.chunk_len <= byte_limit(t.size)
        }),
    decreases i,
{
    law_file_is_sent_whole(transfer_id, name, file, reads);
    let m = sending(transfer_id, name, file.len() as u64, 0);
    let chunks = transmission(m, file, reads);
    assert(chunks[i as int].header.offset + chunks[i as int].header.chunk_len <= file.len()) by {
        if file.len() > 0 {
            lemma_rest_is_sent(transfer_id, name, file, 0, reads);
        }
    }
    if i > 0 {
        lemma_arrived(transfer_id, name, file, reads, p, (i - 1) as nat);
        let q = receiving(p, chunks, i);
        assert(q.inbounds.remove(transfer_id) =~= p.inbounds.remove(transfer_id)) by {
            let before = receiving(p, chunks, (i - 1) as nat);
            assert(q.inbounds.remove(transfer_id) =~= before.inbounds.remove(transfer_id));
        }
    }
}

} // verus!
