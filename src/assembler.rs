//! Reassembly of a message that the transport delivers in fragments, each
//! tagged with its offset and the length of the whole message.

use vstd::prelude::*;

verus! {

/// One fragment fed to an assembler holding `buf`: the buffer afterwards, and
/// the whole message if this fragment completes it.
pub open spec fn feed_of(buf: Seq<u8>, offset: nat, data: Seq<u8>, total: nat) -> (
    Seq<u8>,
    Option<Seq<u8>>,
) {
    let full = if offset == 0 {
        data
    } else {
        buf + data
    };
    if offset + data.len() >= total {
        (Seq::empty(), Some(full))
    } else {
        (full, None)
    }
}

/// Sum of fragment lengths.
pub open spec fn total_of(lens: Seq<nat>) -> nat
    decreases lens.len(),
{
    if lens.len() == 0 {
        0
    } else {
        lens[0] + total_of(lens.drop_first())
    }
}

/// What feeding `body`, cut into consecutive pieces of lengths `lens` starting
/// at offset `pos`, hands back after each piece, from an assembler holding `buf`.
pub open spec fn deliver_of(buf: Seq<u8>, body: Seq<u8>, lens: Seq<nat>, pos: nat) -> Seq<
    Option<Seq<u8>>,
>
    decreases lens.len(),
{
    if lens.len() == 0 || pos + lens[0] > body.len() {
        Seq::empty()
    } else {
        let piece = body.subrange(pos as int, (pos + lens[0]) as int);
        let (next, out) = feed_of(buf, pos, piece, body.len());
        seq![out] + deliver_of(next, body, lens.drop_first(), pos + lens[0])
    }
}

/// Buffer of the message being reassembled.
pub struct Assembler {
    buffer: Vec<u8>,
}

impl Assembler {
    /// The bytes gathered so far.
    pub closed spec fn view(&self) -> Seq<u8> {
        self.buffer@
    }

    /// An assembler with nothing gathered.
    pub fn new() -> (r: Assembler)
        ensures
            r.view() == Seq::<u8>::empty(),
    {
        Assembler { buffer: Vec::new() }
    }

    /// Takes one fragment: offset zero starts a new message, any other
    /// offset continues the current one. Once `offset + data.len()` reaches
    /// `total`, the whole message is handed back and the buffer emptied.
    pub fn feed(&mut self, offset: usize, data: &[u8], total: usize) -> (r: Option<Vec<u8>>)
        ensures
            ({
                let (next, out) = feed_of(old(self).view(), offset as nat, data@, total as nat);
                final(self).view() == next && match r {
                    Some(v) => out == Some(v@),
                    None => out.is_none(),
                }
            }),
    {
        if offset == 0 {
            self.buffer = Vec::new();
        }
        self.buffer.extend_from_slice(data);
        proof {
            let full = if offset == 0 { data@ } else { old(self).view() + data@ };
            assert(self.buffer@ =~= full);
        }
        if offset >= total || data.len() >= total - offset {
            let mut whole = Vec::new();
            std::mem::swap(&mut whole, &mut self.buffer);
            Some(whole)
        } else {
            None
        }
    }
}

/// A message cut into consecutive fragments, the last of them non-empty,
/// fed in order with their offsets and the message's length, is handed back
/// once, whole and unchanged, after the last fragment, whatever the
/// assembler held before.
pub proof fn lemma_fragments_reassemble(buf: Seq<u8>, body: Seq<u8>, lens: Seq<nat>)
    requires
        lens.len() > 0,
        lens.last() > 0,
        total_of(lens) == body.len(),
    ensures
        deliver_of(buf, body, lens, 0).len() == lens.len(),
        deliver_of(buf, body, lens, 0).last() == Some(body),
        forall|i: int|
            0 <= i < lens.len() - 1 ==> #[trigger] deliver_of(buf, body, lens, 0)[i].is_none(),
{
    lemma_deliver_from(buf, body, lens, 0);
    assert(body.subrange(0, body.len() as int) =~= body);
}

proof fn lemma_total_covers_last(lens: Seq<nat>)
    requires
        lens.len() > 0,
    ensures
        total_of(lens) >= lens.last(),
    decreases lens.len(),
{
    if lens.len() > 1 {
        lemma_total_covers_last(lens.drop_first());
        assert(lens.drop_first().last() == lens.last());
    }
}

proof fn lemma_deliver_from(buf: Seq<u8>, body: Seq<u8>, lens: Seq<nat>, pos: nat)
    requires
        lens.len() > 0,
        lens.last() > 0,
        pos + total_of(lens) == body.len(),
        buf == body.take(pos as int) || pos == 0,
    ensures
        deliver_of(buf, body, lens, pos).len() == lens.len(),
        deliver_of(buf, body, lens, pos).last() == Some(body),
        forall|i: int|
            0 <= i < lens.len() - 1 ==> #[trigger] deliver_of(buf, body, lens, pos)[i].is_none(),
    decreases lens.len(),
{
    let piece = body.subrange(pos as int, (pos + lens[0]) as int);
    let full = if pos == 0 { piece } else { buf + piece };
    assert(full =~= body.take((pos + lens[0]) as int));
    let (next, out) = feed_of(buf, pos, piece, body.len());
    let rest = lens.drop_first();
    assert(total_of(lens) == lens[0] + total_of(rest));
    if rest.len() == 0 {
        assert(total_of(rest) == 0);
        assert(body.take((pos + lens[0]) as int) =~= body.subrange(0, body.len() as int));
        assert(body.subrange(0, body.len() as int) =~= body);
    } else {
        assert(rest.last() == lens.last());
        lemma_total_covers_last(rest);
        assert(next == body.take((pos + lens[0]) as int));
        lemma_deliver_from(next, body, rest, pos + lens[0]);
        assert(body.subrange(0, body.len() as int) =~= body);
        let d = deliver_of(buf, body, lens, pos);
        assert forall|i: int| 0 <= i < lens.len() - 1 implies #[trigger] d[i].is_none() by {
            if i > 0 {
                assert(d[i] == deliver_of(next, body, rest, pos + lens[0])[i - 1]);
            }
        }
    }
}

} // verus!
