//! A task whose fuse is not commutative: it collects the bytes of a
//! segment in order.  Whatever demand pattern drives a run, the result
//! must equal the plain left-to-right fold — which makes the collector
//! a witness that the runtime respects sibling order.

use vstd::prelude::*;

verus! {

use crate::task::Task;

/// Collects `data[start_index .. end_index]` into `acc`, one byte per
/// step.  Splitting hands the rightmost bytes of the segment to sibling
/// collectors; fusing appends a finished sibling's bytes after our own.
pub struct Concatenator {
    pub data: Vec<u8>,
    pub start_index: usize,
    pub end_index: usize,
    pub acc: Vec<u8>,
}

/// Fold of concatenation over the answers of a row of collectors.
pub open spec fn concat_fold(acc: Seq<u8>, rest: Seq<Concatenator>) -> Seq<u8>
    decreases rest.len(),
{
    if rest.len() == 0 {
        acc
    } else {
        concat_fold(acc + rest[0].collected(), rest.drop_first())
    }
}

proof fn lemma_concat_fold_push(acc: Seq<u8>, rest: Seq<Concatenator>, x: Concatenator)
    ensures
        concat_fold(acc, rest.push(x)) == concat_fold(acc, rest) + x.collected(),
    decreases rest.len(),
{
    if rest.len() == 0 {
        assert(rest.push(x).drop_first() =~= Seq::<Concatenator>::empty());
        assert(concat_fold(acc + x.collected(), Seq::<Concatenator>::empty()) == acc
            + x.collected());
        assert(concat_fold(acc, rest) == acc);
    } else {
        assert(rest.push(x).drop_first() =~= rest.drop_first().push(x));
        lemma_concat_fold_push(acc + rest[0].collected(), rest.drop_first(), x);
    }
}

impl Concatenator {
    /// The segment boundaries lie within the data.
    pub open spec fn inv(&self) -> bool {
        self.start_index <= self.end_index <= self.data@.len()
    }

    /// What this collector will have gathered once it has run and all its
    /// siblings are fused back: its bytes so far, then its segment.
    pub open spec fn collected(&self) -> Seq<u8> {
        self.acc@ + self.data@.subrange(self.start_index as int, self.end_index as int)
    }

    /// A collector for the whole of `data`.
    pub fn new(data: Vec<u8>) -> (r: Concatenator)
        ensures
            r.inv(),
            r.collected() == data@,
            r.start_index == 0usize,
    {
        let end = data.len();
        let r = Concatenator { data, start_index: 0, end_index: end, acc: Vec::new() };
        proof {
            assert(r.acc@ + r.data@.subrange(0, r.data@.len() as int) =~= r.data@);
        }
        r
    }

    /// The bytes gathered, for a caller that has run the collector.
    pub fn into_bytes(self) -> (r: Vec<u8>)
        requires
            self.inv(),
            self.start_index == self.end_index,
        ensures
            r@ == self.collected(),
    {
        proof {
            assert(self.acc@ + self.data@.subrange(
                self.start_index as int,
                self.end_index as int,
            ) =~= self.acc@);
        }
        self.acc
    }
}

impl Task<Seq<u8>> for Concatenator {
    open spec fn wf(&self) -> bool {
        self.inv()
    }

    open spec fn answer(&self) -> Seq<u8> {
        self.collected()
    }

    open spec fn combine(a: Seq<u8>, b: Seq<u8>) -> Seq<u8> {
        a + b
    }

    open spec fn done(&self) -> bool {
        self.start_index == self.end_index
    }

    open spec fn measure(&self) -> nat {
        (self.end_index - self.start_index) as nat
    }

    open spec fn splittable(&self) -> bool {
        self.end_index - self.start_index >= 2
    }

    open spec fn fold_siblings(acc: Seq<u8>, rest: Seq<Concatenator>) -> Seq<u8> {
        concat_fold(acc, rest)
    }

    proof fn fold_siblings_zero(acc: Seq<u8>) {
    }

    proof fn fold_siblings_succ(acc: Seq<u8>, rest: Seq<Concatenator>) {
    }

    fn is_finished(&self) -> (r: bool) {
        self.start_index == self.end_index
    }

    fn can_split(&self) -> (r: bool) {
        self.end_index - self.start_index >= 2
    }

    fn step(&mut self)
        ensures
            final(self).data@ == old(self).data@,
            final(self).end_index == old(self).end_index,
            final(self).start_index == old(self).start_index + 1,
            final(self).acc@ == old(self).acc@.push(old(self).data@[old(self).start_index as int]),
    {
        let ghost self0 = *self;
        let b = self.data[self.start_index];
        self.acc.push(b);
        self.start_index = self.start_index + 1;
        proof {
            assert(self.acc@ + self.data@.subrange(
                self.start_index as int,
                self.end_index as int,
            ) =~= self0.acc@ + self0.data@.subrange(
                self0.start_index as int,
                self0.end_index as int,
            ));
        }
    }

    fn split(&mut self, n: usize) -> (sibs: Vec<Concatenator>)
        ensures
            final(self).data@ == old(self).data@,
            final(self).acc@ == old(self).acc@,
            final(self).start_index == old(self).start_index,
            final(self).end_index + sibs@.len() == old(self).end_index,
    {
        let ghost self0 = *self;
        let range = self.end_index - self.start_index;
        let k = if n < range - 1 {
            n
        } else {
            range - 1
        };
        let cut = self.end_index - k;
        self.end_index = cut;
        let ghost kept = *self;
        let mut sibs: Vec<Concatenator> = Vec::new();
        let mut j: usize = 0;
        while j < k
            invariant
                j <= k,
                1 <= k,
                k < self0.end_index - self0.start_index,
                cut == self0.end_index - k,
                *self == kept,
                kept.data == self0.data,
                kept.acc == self0.acc,
                kept.start_index == self0.start_index,
                kept.end_index == cut,
                self0.inv(),
                sibs@.len() == j,
                forall|q: int|
                    0 <= q < j ==> (#[trigger] sibs@[q]).inv() && sibs@[q].measure()
                        < self0.measure(),
                concat_fold(kept.collected(), sibs@) == self0.acc@ + self0.data@.subrange(
                    self0.start_index as int,
                    cut + j,
                ),
            decreases k - j,
        {
            let ghost sibs0 = sibs@;
            let sib = Concatenator {
                data: self.data.clone(),
                start_index: cut + j,
                end_index: cut + j + 1,
                acc: Vec::new(),
            };
            sibs.push(sib);
            proof {
                lemma_concat_fold_push(kept.collected(), sibs0, sib);
                assert(sib.collected() =~= self0.data@.subrange(cut + j, cut + j + 1));
                assert((self0.acc@ + self0.data@.subrange(self0.start_index as int, cut + j))
                    + self0.data@.subrange(cut + j, cut + j + 1) =~= self0.acc@
                    + self0.data@.subrange(self0.start_index as int, cut + j + 1));
            }
            j += 1;
        }
        proof {
            assert(self0.acc@ + self0.data@.subrange(self0.start_index as int, cut + k)
                =~= self0.collected());
        }
        sibs
    }

    fn fuse(&mut self, other: &Self)
        ensures
            final(self).data@ == old(self).data@,
            final(self).start_index == old(self).start_index,
            final(self).end_index == old(self).end_index,
            final(self).acc@ == old(self).acc@ + other.acc@,
    {
        let ghost self0 = *self;
        self.acc.extend_from_slice(other.acc.as_slice());
        proof {
            assert(self0.collected() =~= self0.acc@);
            assert(other.collected() =~= other.acc@);
            assert(self.acc@ =~= self0.acc@ + other.acc@);
            assert(self.acc@ + self.data@.subrange(
                self.start_index as int,
                self.end_index as int,
            ) =~= self.acc@);
        }
    }
}

} // verus!
