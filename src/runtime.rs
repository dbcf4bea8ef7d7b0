//! The runtime's input and public-value streams.
use vstd::prelude::*;

verus! {

/// The streams a program reads its input from and writes its public values to.
#[derive(Clone, Debug)]
pub struct ExecutionState {
    /// Inputs, one buffer per write, in the order written.
    pub input_stream: Vec<Vec<u8>>,
    /// The bytes the program committed as public values.
    pub public_values_stream: Vec<u8>,
    /// How far the public values have been read.
    pub public_values_stream_ptr: usize,
}

#[derive(Clone, Debug)]
pub struct Runtime {
    pub state: ExecutionState,
}

/// A fresh copy of the bytes.
fn copy_bytes(bytes: &[u8]) -> (r: Vec<u8>)
    ensures
        r@ == bytes@,
{
    let mut r: Vec<u8> = Vec::new();
    let mut i: usize = 0;
    while i < bytes.len()
        invariant
            i <= bytes@.len(),
            r@ == bytes@.subrange(0, i as int),
        decreases bytes@.len() - i,
    {
        r.push(bytes[i]);
        assert(r@ =~= bytes@.subrange(0, i + 1));
        i = i + 1;
    }
    assert(r@ =~= bytes@);
    r
}

impl Runtime {
    /// A runtime with empty streams, read from the start.
    pub fn new() -> (r: Self)
        ensures
            r.state.input_stream@.len() == 0,
            r.state.public_values_stream@.len() == 0,
            r.state.public_values_stream_ptr == 0,
    {
        Runtime {
            state: ExecutionState {
                input_stream: Vec::new(),
                public_values_stream: Vec::new(),
                public_values_stream_ptr: 0,
            },
        }
    }

    /// Appends one input buffer holding `input`.
    pub fn write_stdin_slice(&mut self, input: &[u8])
        ensures
            final(self).state.input_stream@.len() == old(self).state.input_stream@.len() + 1,
            forall|i: int|
                0 <= i < old(self).state.input_stream@.len() ==> #[trigger] final(self).state.input_stream@[i] == old(self).state.input_stream@[i],
            final(self).state.input_stream@.last()@ == input@,
            final(self).state.public_values_stream == old(self).state.public_values_stream,
            final(self).state.public_values_stream_ptr == old(self).state.public_values_stream_ptr,
    {
        let buf = copy_bytes(input);
        self.state.input_stream.push(buf);
    }

    /// Appends one input buffer per element of `inputs`, in order.
    pub fn write_vecs(&mut self, inputs: &[Vec<u8>])
        ensures
            final(self).state.input_stream@.len() == old(self).state.input_stream@.len()
                + inputs@.len(),
            forall|i: int|
                0 <= i < old(self).state.input_stream@.len() ==> #[trigger] final(self).state.input_stream@[i] == old(self).state.input_stream@[i],
            forall|i: int|
                0 <= i < inputs@.len() ==> (#[trigger] final(self).state.input_stream@[old(self).state.input_stream@.len() + i])@ == inputs@[i]@,
            final(self).state.public_values_stream == old(self).state.public_values_stream,
            final(self).state.public_values_stream_ptr == old(self).state.public_values_stream_ptr,
    {
        let ghost start = self.state.input_stream@.len();
        let mut k: usize = 0;
        while k < inputs.len()
            invariant
                k <= inputs@.len(),
                start == old(self).state.input_stream@.len(),
                self.state.input_stream@.len() == start + k,
                forall|i: int|
                    0 <= i < start ==> #[trigger] self.state.input_stream@[i] == old(self).state.input_stream@[i],
                forall|i: int|
                    0 <= i < k ==> (#[trigger] self.state.input_stream@[start + i])@ == inputs@[i]@,
                self.state.public_values_stream == old(self).state.public_values_stream,
                self.state.public_values_stream_ptr == old(self).state.public_values_stream_ptr,
            decreases inputs@.len() - k,
        {
            let buf = copy_bytes(inputs[k].as_slice());
            self.state.input_stream.push(buf);
            k = k + 1;
        }
    }

    /// Fills `buf` with the next `buf.len()` public-value bytes and moves
    /// past them.
    pub fn read_public_values_slice(&mut self, buf: &mut [u8])
        requires
            old(self).state.public_values_stream_ptr + old(buf)@.len()
                <= old(self).state.public_values_stream@.len(),
        ensures
            final(buf)@ == old(self).state.public_values_stream@.subrange(
                old(self).state.public_values_stream_ptr as int,
                old(self).state.public_values_stream_ptr + old(buf)@.len(),
            ),
            final(self).state.public_values_stream_ptr == old(self).state.public_values_stream_ptr
                + old(buf)@.len(),
            final(self).state.public_values_stream == old(self).state.public_values_stream,
            final(self).state.input_stream == old(self).state.input_stream,
    {
        let len = buf.len();
        let start = self.state.public_values_stream_ptr;
        let stream_len = self.state.public_values_stream.len();
        assert(start + len <= stream_len);
        let end = start + len;
        let mut i: usize = 0;
        while i < len
            invariant
                len == buf@.len(),
                start == self.state.public_values_stream_ptr,
                end == start + len,
                end <= self.state.public_values_stream@.len(),
                i <= len,
                forall|k: int|
                    0 <= k < i ==> #[trigger] buf@[k] == self.state.public_values_stream@[start + k],
            decreases len - i,
        {
            buf[i] = self.state.public_values_stream[start + i];
            i = i + 1;
        }
        assert(buf@ =~= self.state.public_values_stream@.subrange(start as int, end as int));
        self.state.public_values_stream_ptr = end;
    }
}

} // verus!
