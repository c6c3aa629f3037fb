//! A fixed-length 8-bit integer column overlaid with a validity bitmap.

use vstd::prelude::*;

use bit_vec::BitVec;

use crate::bits::{bits_of, bv_from_elem, bv_get, bv_len, bv_new, bv_push};
use crate::column::{Column, DataType, DataTypeMut, Numeric, Series};
use crate::parallel;
use crate::Error;

verus! {

/// A sequence of `i8` values and an equal-length validity bitmap overlaid
/// onto it: a false bit marks a null, whose value slot holds a placeholder
/// that is never read by a masked transform or reduction.
#[derive(Debug, PartialEq)]
pub struct Int8Column {
    values: Vec<i8>,
    mask: BitVec,
}

/// The sum, as a mathematical integer, of the first `k` entries that are
/// valid; nulls contribute nothing.
pub open spec fn masked_prefix_sum(entries: Seq<Option<i8>>, k: int) -> int
    decreases k,
{
    if k <= 0 {
        0
    } else {
        masked_prefix_sum(entries, k - 1) + (match entries[k - 1] {
            Some(v) => v as int,
            None => 0,
        })
    }
}

impl Int8Column {
    /// The raw value sequence, placeholders included.
    pub closed spec fn values_seq(&self) -> Seq<i8> {
        self.values@
    }

    /// The validity bitmap.
    pub closed spec fn mask_bits(&self) -> Seq<bool> {
        bits_of(self.mask)
    }

    /// Values and bitmap always have equal length.
    pub open spec fn wf(&self) -> bool {
        self.values_seq().len() == self.mask_bits().len()
    }

    /// Builds a column from values and a validity bitmap; fails with
    /// `LengthMismatch`, iff their lengths differ.
    pub fn new(values: Vec<i8>, mask: BitVec) -> (r: Result<Self, Error>)
        ensures
            (match r {
                Ok(c) => {
                    &&& values@.len() == bits_of(mask).len()
                    &&& c.values_seq() == values@
                    &&& c.mask_bits() == bits_of(mask)
                    &&& c.wf()
                },
                Err(e) => e == Error::LengthMismatch && values@.len() != bits_of(mask).len(),
            }),
    {
        if values.len() != bv_len(&mask) {
            return Err(Error::LengthMismatch);
        }
        Ok(Int8Column { values, mask })
    }

    /// The raw values, placeholders under false bits included, exposed for
    /// inspection.
    pub fn raw_values(&self) -> (r: &Vec<i8>)
        ensures
            r@ == self.values_seq(),
    {
        &self.values
    }
}

impl Column for Int8Column {

}

impl DataType for Int8Column {
    type Item = i8;

    open spec fn inv(&self) -> bool {
        self.wf()
    }

    open spec fn entries(&self) -> Seq<Option<i8>> {
        Seq::new(
            self.mask_bits().len(),
            |j: int|
                if self.mask_bits()[j] {
                    Some(self.values_seq()[j])
                } else {
                    None
                },
        )
    }

    fn get(&self, index: usize) -> (r: Option<Option<&i8>>) {
        match bv_get(&self.mask, index) {
            None => None,
            Some(false) => Some(None),
            Some(true) => Some(Some(&self.values[index])),
        }
    }

    fn values(&self) -> (s: Series<'_, Self>) {
        Series::new(self)
    }
}

impl Numeric for Int8Column {
    /// Every partial sum of the valid entries stays in `i8` range, so the
    /// left-to-right reduction never overflows.
    open spec fn sum_pre(&self) -> bool {
        forall|k: int|
            0 <= k <= self.entries().len() ==> i8::MIN <= #[trigger] masked_prefix_sum(
                self.entries(),
                k,
            ) <= i8::MAX
    }

    open spec fn sum_spec(&self) -> i8 {
        masked_prefix_sum(self.entries(), self.entries().len() as int) as i8
    }

    fn sum(&self) -> (r: i8) {
        let n = self.values.len();
        let mut acc: i8 = 0;
        let mut k: usize = 0;
        while k < n
            invariant
                self.inv(),
                self.sum_pre(),
                n == self.values_seq().len(),
                0 <= k <= n,
                acc as int == masked_prefix_sum(self.entries(), k as int),
            decreases n - k,
        {
            let valid = match bv_get(&self.mask, k) {
                Some(b) => b,
                None => false,
            };
            if valid {
                proof {
                    assert(masked_prefix_sum(self.entries(), k as int + 1) == acc as int
                        + self.values_seq()[k as int]);
                }
                acc = acc + self.values[k];
            }
            k += 1;
        }
        acc
    }
}

impl DataTypeMut for Int8Column {
    /// Beyond the trait's entry-level clauses: the bitmap is untouched and
    /// the placeholder value under every false bit is bit-for-bit unchanged.
    fn apply<F: Fn(i8) -> i8 + Sync>(&mut self, f: F)
        ensures
            final(self).mask_bits() == old(self).mask_bits(),
            final(self).values_seq().len() == old(self).values_seq().len(),
            forall|j: int|
                0 <= j < old(self).values_seq().len() ==> (if old(self).mask_bits()[j] {
                    call_ensures(
                        f,
                        (old(self).values_seq()[j],),
                        #[trigger] final(self).values_seq()[j],
                    )
                } else {
                    final(self).values_seq()[j] == old(self).values_seq()[j]
                }),
    {
        let mask_plain = mask_to_vec(&self.mask);
        proof {
            assert forall|j: int|
                0 <= j < mask_plain@.len() && mask_plain@[j] implies call_requires(
                f,
                (#[trigger] self.values@[j],),
            ) by {
                assert(old(self).entries()[j] == Some(old(self).values_seq()[j]));
            }
        }
        parallel::apply_masked(&mut self.values, &mask_plain, f);
        proof {
            assert forall|j: int|
                0 <= j < old(self).entries().len() implies (match #[trigger] old(
                self,
            ).entries()[j] {
                Some(v) => (self.entries()[j] matches Some(w) && call_ensures(f, (v,), w)),
                None => self.entries()[j] is None,
            }) by {
                assert(0 <= j < self.mask_bits().len());
            }
        }
    }
}

impl From<Vec<i8>> for Int8Column {
    /// Every position of a bare value vector is valid.
    fn from(v: Vec<i8>) -> (r: Self)
        ensures
            r.wf(),
            r.values_seq() == v@,
            r.mask_bits() == Seq::new(v@.len(), |j: int| true),
    {
        let len = v.len();
        let mask = bv_from_elem(len, true);
        Int8Column { values: v, mask }
    }
}

/// A column holds an outside bitmap type, so its value cannot be written
/// down in specification code; the `From` impl carries its own `ensures`
/// instead, and this extension claims nothing.
impl vstd::std_specs::convert::FromSpecImpl<Vec<i8>> for Int8Column {
    open spec fn obeys_from_spec() -> bool {
        false
    }

    open spec fn from_spec(v: Vec<i8>) -> Self {
        arbitrary()
    }
}

impl From<Vec<Option<i8>>> for Int8Column {
    /// A `Some` becomes a valid entry holding its value; a `None` becomes a
    /// null: a false bit over a zero placeholder.
    fn from(v: Vec<Option<i8>>) -> (r: Self)
        ensures
            r.wf(),
            r.values_seq() == Seq::new(
                v@.len(),
                |j: int|
                    match v@[j] {
                        Some(x) => x,
                        None => 0i8,
                    },
            ),
            r.mask_bits() == Seq::new(v@.len(), |j: int| v@[j] is Some),
    {
        let mut values: Vec<i8> = Vec::new();
        let mut mask = bv_new();
        let mut i: usize = 0;
        while i < v.len()
            invariant
                0 <= i <= v@.len(),
                values@ == Seq::new(
                    i as nat,
                    |j: int|
                        match v@[j] {
                            Some(x) => x,
                            None => 0i8,
                        },
                ),
                bits_of(mask) == Seq::new(i as nat, |j: int| v@[j] is Some),
            decreases v@.len() - i,
        {
            match v[i] {
                Some(x) => {
                    values.push(x);
                    bv_push(&mut mask, true);
                },
                None => {
                    values.push(0);
                    bv_push(&mut mask, false);
                },
            }
            proof {
                assert(values@ =~= Seq::new(
                    i as nat + 1,
                    |j: int|
                        match v@[j] {
                            Some(x) => x,
                            None => 0i8,
                        },
                ));
                assert(bits_of(mask) =~= Seq::new(i as nat + 1, |j: int| v@[j] is Some));
            }
            i += 1;
        }
        Int8Column { values, mask }
    }
}

/// As above: the `From` impl carries its own `ensures`, and this extension
/// claims nothing.
impl vstd::std_specs::convert::FromSpecImpl<Vec<Option<i8>>> for Int8Column {
    open spec fn obeys_from_spec() -> bool {
        false
    }

    open spec fn from_spec(v: Vec<Option<i8>>) -> Self {
        arbitrary()
    }
}

/// Unpacks a validity bitmap into one plain `bool` per position.
fn mask_to_vec(mask: &BitVec) -> (r: Vec<bool>)
    ensures
        r@ == bits_of(*mask),
{
    let n = bv_len(mask);
    let mut r: Vec<bool> = Vec::new();
    let mut i: usize = 0;
    while i < n
        invariant
            n == bits_of(*mask).len(),
            0 <= i <= n,
            r@ == bits_of(*mask).subrange(0, i as int),
        decreases n - i,
    {
        let b = match bv_get(mask, i) {
            Some(b) => b,
            None => false,
        };
        r.push(b);
        proof {
            assert(bits_of(*mask).subrange(0, i as int).push(bits_of(*mask)[i as int])
                =~= bits_of(*mask).subrange(0, i as int + 1));
        }
        i += 1;
    }
    proof {
        assert(r@ =~= bits_of(*mask));
    }
    r
}

} // verus!
