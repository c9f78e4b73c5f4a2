use crate::name::{XorName, XOR_NAME_LEN};
use crate::slices::slice_as_u8_64_array;
use vstd::prelude::*;

verus! {

/// A length-tagged sequence declared a length other than `XOR_NAME_LEN`.
#[derive(Clone, Copy, Debug, PartialEq, Eq, Structural)]
pub struct SeqLengthError {
    pub expected: usize,
    pub found: usize,
}

/// What decoding a sequence whose length tag is `len` gives, as far as the tag decides.
pub open spec fn seq_len_check(len: nat) -> Result<(), SeqLengthError> {
    if len == 64 {
        Ok(())
    } else {
        Err(SeqLengthError { expected: 64, found: len as usize })
    }
}

/// Decoding a name from the elements of a length-tagged sequence.
pub open spec fn seq_decoding(elems: Seq<u8>) -> Result<Seq<u8>, SeqLengthError> {
    match seq_len_check(elems.len()) {
        Ok(_) => Ok(elems),
        Err(e) => Err(e),
    }
}

impl XorName {
    /// The elements, in index order, under which a name is written as a
    /// length-tagged sequence; the tag is their number, `XOR_NAME_LEN`.
    pub fn seq_elements(&self) -> (r: Vec<u8>)
        ensures
            r@ == self@,
    {
        let mut v: Vec<u8> = Vec::new();
        let mut i: usize = 0;
        while i < XOR_NAME_LEN
            invariant
                0 <= i <= XOR_NAME_LEN,
                self@.len() == XOR_NAME_LEN,
                v@ == self@.subrange(0, i as int),
            decreases XOR_NAME_LEN - i,
        {
            v.push(self.0[i]);
            i += 1;
            assert(v@ =~= self@.subrange(0, i as int));
        }
        assert(self@.subrange(0, 64) =~= self@);
        v
    }

    /// Checks the length tag of a sequence that is to be decoded as a name,
    /// before its elements are read.
    pub fn check_seq_len(len: usize) -> (r: Result<(), SeqLengthError>)
        ensures
            r == seq_len_check(len as nat),
    {
        if len != XOR_NAME_LEN {
            return Err(SeqLengthError { expected: XOR_NAME_LEN, found: len });
        }
        Ok(())
    }

    /// Decodes a name from the elements of a length-tagged sequence.
    pub fn from_seq_elements(elems: &Vec<u8>) -> (r: Result<XorName, SeqLengthError>)
        ensures
            match r {
                Ok(n) => seq_decoding(elems@) == Ok::<Seq<u8>, SeqLengthError>(n@),
                Err(e) => seq_decoding(elems@) == Err::<Seq<u8>, SeqLengthError>(e),
            },
    {
        match XorName::check_seq_len(elems.len()) {
            Ok(_) => Ok(XorName(slice_as_u8_64_array(elems.as_slice()))),
            Err(e) => Err(e),
        }
    }
}

} // verus!
