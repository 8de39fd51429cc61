//! A body filter that holds the whole body back and gives it at the end.
use vstd::prelude::*;

verus! {

#[derive(Debug)]
pub struct BufferFilterBody {
    buffer: Vec<u8>,
}

impl Default for BufferFilterBody {
    /// A filter that holds nothing yet.
    fn default() -> (res: Self)
        ensures
            res.spec_buffer() == Seq::<u8>::empty(),
    {
        BufferFilterBody { buffer: Vec::new() }
    }
}

impl BufferFilterBody {
    /// The body held so far.
    pub closed spec fn spec_buffer(&self) -> Seq<u8> {
        self.buffer@
    }

    /// Holds `input` back and gives nothing.
    pub fn filter(&mut self, input: Vec<u8>) -> (res: Vec<u8>)
        ensures
            res@ == Seq::<u8>::empty(),
            final(self).spec_buffer() == old(self).spec_buffer() + input@,
    {
        let mut input = input;
        self.buffer.append(&mut input);
        Vec::new()
    }

    /// Gives all that was held back.
    pub fn end(self) -> (res: Vec<u8>)
        ensures
            res@ == self.spec_buffer(),
    {
        self.buffer
    }
}

/// A buffer filter that starts empty and takes the chunks of a body in turn holds them in
/// order: after the last, it holds the whole body, which its end gives.
pub proof fn law_the_buffer_holds_the_chunks_in_order(states: Seq<BufferFilterBody>, chunks: Seq<Seq<u8>>)
    requires
        states.len() == chunks.len() + 1,
        states[0].spec_buffer() == Seq::<u8>::empty(),
        forall|i: int|
            0 <= i < chunks.len() ==> #[trigger] states[i + 1].spec_buffer() == states[i].spec_buffer() + chunks[i],
    ensures
        states.last().spec_buffer() == chunks.flatten(),
    decreases chunks.len(),
{
    if chunks.len() == 0 {
        assert(chunks.flatten() =~= Seq::<u8>::empty());
    } else {
        let n = chunks.len() - 1;
        law_the_buffer_holds_the_chunks_in_order(states.drop_last(), chunks.drop_last());
        assert(states.drop_last().last() == states[n]);
        assert(states[n + 1].spec_buffer() == states[n].spec_buffer() + chunks[n]);
        chunks.lemma_flatten_and_flatten_alt_are_equivalent();
        chunks.drop_last().lemma_flatten_and_flatten_alt_are_equivalent();
        assert(chunks.flatten_alt() == chunks.drop_last().flatten_alt() + chunks.last());
    }
}

} // verus!
