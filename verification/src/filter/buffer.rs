//! A buffer of bytes handed across the library's boundary.
use vstd::prelude::*;

verus! {

/// An owned run of bytes.
#[derive(Debug, Clone)]
pub struct Buffer {
    data: Vec<u8>,
}

impl View for Buffer {
    type V = Seq<u8>;

    closed spec fn view(&self) -> Seq<u8> {
        self.data@
    }
}

impl Default for Buffer {
    /// An empty buffer.
    fn default() -> (res: Self)
        ensures
            res@ == Seq::<u8>::empty(),
    {
        Buffer { data: Vec::new() }
    }
}

impl Buffer {
    /// A second buffer with the same bytes; this one stays as it is.
    pub fn duplicate(&self) -> (res: Self)
        ensures
            res@ == self@,
    {
        Self::from_vec(self.to_vec())
    }

    /// A buffer holding `vec`.
    pub fn from_vec(vec: Vec<u8>) -> (res: Self)
        ensures
            res@ == vec@,
    {
        Buffer { data: vec }
    }

    /// A buffer holding the UTF-8 bytes of `str`.
    pub fn from_string(str: String) -> (res: Self)
        ensures
            res@ == vstd::utf8::encode_utf8(str@),
    {
        Self::from_vec(str.as_str().as_bytes_vec())
    }

    /// A copy of the bytes.
    pub fn to_vec(&self) -> (res: Vec<u8>)
        ensures
            res@ == self@,
    {
        let mut res: Vec<u8> = Vec::new();
        let mut i: usize = 0;
        while i < self.data.len()
            invariant
                i <= self.data@.len(),
                res@ == self.data@.take(i as int),
            decreases self.data@.len() - i,
        {
            res.push(self.data[i]);
            i = i + 1;
            assert(res@ =~= self.data@.take(i as int));
        }
        assert(self.data@.take(i as int) =~= self.data@);
        res
    }

    /// The bytes, taken out of the buffer.
    pub fn into_vec(self) -> (res: Vec<u8>)
        ensures
            res@ == self@,
    {
        self.data
    }
}

} // verus!
