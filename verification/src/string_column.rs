//! A string column backed by the dictionary-encoded byte array.
//!
//! Strings in a data table are often categorical or nearly so, which is
//! exactly the low-cardinality shape the dictionary array stores well. A
//! validity bitmap of the column's own marks nulls: a null is stored as the
//! conventional empty value with its bit set false, so an explicit empty
//! string and a null are told apart by the bitmap alone, never by
//! dictionary identity — empty pushes all collapse to one dictionary slot
//! by design.

use vstd::prelude::*;
use vstd::string::StringSliceAdditionalSpecFns;
use vstd::utf8::{decode_utf8, encode_utf8, valid_utf8};

use bit_vec::BitVec;

use crate::bits::{bits_of, bv_new, bv_push};
use crate::categorical::CategoricalArray;

verus! {

/// Relies on `str::from_utf8`: on valid UTF-8 it succeeds and returns the
/// string slice those bytes encode.
#[verifier::external_body]
fn bytes_to_str(bytes: &[u8]) -> (r: &str)
    requires
        valid_utf8(bytes@),
    ensures
        r.spec_bytes() == bytes@,
{
    core::str::from_utf8(bytes).unwrap_or("")
}

#[derive(Debug)]
pub struct StringColumn {
    values: CategoricalArray,
    mask: BitVec,
}

impl StringColumn {
    /// The backing dictionary array.
    pub closed spec fn dict(&self) -> CategoricalArray {
        self.values
    }

    /// The validity bitmap: false marks a null row.
    pub closed spec fn mask_bits(&self) -> Seq<bool> {
        bits_of(self.mask)
    }

    /// The dictionary is well-formed, the bitmap covers every row, and
    /// every row's bytes are valid UTF-8 (they were stored from strings).
    pub open spec fn wf(&self) -> bool {
        &&& self.dict().wf()
        &&& self.mask_bits().len() == self.dict()@.len()
        &&& forall|i: int| 0 <= i < self.dict()@.len() ==> valid_utf8(#[trigger] self.dict()@[i])
    }

    pub fn new() -> (r: Self)
        ensures
            r.wf(),
            r@ == Seq::<Seq<char>>::empty(),
            r.mask_bits() == Seq::<bool>::empty(),
    {
        let r = StringColumn { values: CategoricalArray::new(), mask: bv_new() };
        proof {
            assert(r@ =~= Seq::<Seq<char>>::empty());
        }
        r
    }

    /// Appends a valid row holding `s`. Takes a reference: if the string is
    /// already in the dictionary nothing is copied, and otherwise one copy
    /// is made into the contiguous buffer.
    pub fn push(&mut self, s: &str)
        requires
            old(self).wf(),
            old(self).dict().buffer().len() + s.spec_bytes().len() <= usize::MAX,
        ensures
            final(self).wf(),
            final(self)@ == old(self)@.push(s@),
            final(self).mask_bits() == old(self).mask_bits().push(true),
    {
        let bytes = s.as_bytes();
        self.values.push(bytes);
        let rows = self.values.len();
        proof {
            assert(old(self).mask_bits().len() < rows <= usize::MAX);
        }
        bv_push(&mut self.mask, true);
        proof {
            vstd::utf8::encode_utf8_valid_utf8(s@);
            vstd::utf8::encode_utf8_decode_utf8(s@);
            assert(self@ =~= old(self)@.push(s@));
        }
    }

    /// Appends a null row: the conventional empty value in the dictionary,
    /// with its validity bit false.
    pub fn push_null(&mut self)
        requires
            old(self).wf(),
        ensures
            final(self).wf(),
            final(self)@ == old(self)@.push(Seq::<char>::empty()),
            final(self).mask_bits() == old(self).mask_bits().push(false),
    {
        let empty: Vec<u8> = Vec::new();
        self.values.push(empty.as_slice());
        let rows = self.values.len();
        proof {
            assert(old(self).mask_bits().len() < rows <= usize::MAX);
        }
        bv_push(&mut self.mask, false);
        proof {
            assert(decode_utf8(Seq::<u8>::empty()) == Seq::<char>::empty());
            assert(self@ =~= old(self)@.push(Seq::<char>::empty()));
        }
    }

    /// True iff some row holds exactly `s`, null rows' placeholders
    /// included.
    pub fn contains(&self, s: &str) -> (r: bool)
        requires
            self.wf(),
        ensures
            r == self@.contains(s@),
    {
        let r = self.values.contains(s.as_bytes());
        proof {
            vstd::utf8::encode_utf8_valid_utf8(s@);
            vstd::utf8::encode_utf8_decode_utf8(s@);
            if self.dict()@.contains(s.spec_bytes()) {
                let i = choose|i: int|
                    0 <= i < self.dict()@.len() && self.dict()@[i] == s.spec_bytes();
                assert(self@[i] == s@);
            }
            if self@.contains(s@) {
                let i = choose|i: int| 0 <= i < self@.len() && self@[i] == s@;
                vstd::utf8::decode_utf8_encode_utf8(self.dict()@[i]);
                assert(self.dict()@[i] == s.spec_bytes());
            }
        }
        r
    }

    /// The string at row `i`, nulls reading as their stored placeholder;
    /// no value when `i` is out of range. Never errors and never mutates.
    pub fn get(&self, i: usize) -> (r: Option<&str>)
        requires
            self.wf(),
        ensures
            match r {
                Some(s) => i < self@.len() && s@ == self@[i as int],
                None => i >= self@.len(),
            },
    {
        match self.values.get(i) {
            Some(bytes) => {
                let s = bytes_to_str(bytes);
                proof {
                    vstd::utf8::encode_utf8_decode_utf8(s@);
                }
                Some(s)
            },
            None => None,
        }
    }

    pub fn is_empty(&self) -> (r: bool)
        ensures
            r <==> self@.len() == 0,
    {
        self.values.is_empty()
    }
}

impl View for StringColumn {
    type V = Seq<Seq<char>>;

    /// The logical rows, as character strings.
    open spec fn view(&self) -> Seq<Seq<char>> {
        Seq::new(self.dict()@.len(), |i: int| decode_utf8(self.dict()@[i]))
    }
}

} // verus!
