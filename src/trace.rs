//! The extended execution trace and the two-row frame read from it.
use crate::field::{all_elems, is_elem};
use vstd::prelude::*;

verus! {

/// A window of two consecutive trace rows.
pub struct EvaluationFrame {
    pub current: Vec<u64>,
    pub next: Vec<u64>,
}

impl EvaluationFrame {
    /// A zeroed frame for a trace of the given width.
    pub fn new(width: usize) -> (r: Self)
        ensures
            r.current@ == Seq::new(width as nat, |i: int| 0u64),
            r.next@ == Seq::new(width as nat, |i: int| 0u64),
    {
        let mut current: Vec<u64> = Vec::new();
        let mut next: Vec<u64> = Vec::new();
        let mut i: usize = 0;
        while i < width
            invariant
                i <= width,
                current@ == Seq::new(i as nat, |k: int| 0u64),
                next@ == Seq::new(i as nat, |k: int| 0u64),
            decreases width - i,
        {
            current.push(0);
            next.push(0);
            i = i + 1;
            assert(current@ =~= Seq::new(i as nat, |k: int| 0u64));
            assert(next@ =~= Seq::new(i as nat, |k: int| 0u64));
        }
        EvaluationFrame { current, next }
    }
}

/// An execution trace extended over the LDE domain, stored column by column.
pub struct TraceTable {
    pub columns: Vec<Vec<u64>>,
    /// Blowup factor of the extension: consecutive steps of the trace before extension are
    /// this many rows apart in the extended one.
    pub blowup: usize,
}

impl TraceTable {
    pub open spec fn spec_width(&self) -> nat {
        self.columns@.len()
    }

    pub open spec fn spec_len(&self) -> nat {
        if self.columns@.len() == 0 {
            0
        } else {
            self.columns@[0]@.len()
        }
    }

    pub open spec fn wf(&self) -> bool {
        &&& self.columns@.len() > 0
        &&& self.spec_len() > 0
        &&& forall|c: int|
            0 <= c < self.columns@.len() ==> {
                &&& #[trigger] self.columns@[c]@.len() == self.spec_len()
                &&& all_elems(self.columns@[c]@)
            }
    }

    /// The row of the trace at `step`.
    pub open spec fn row(&self, step: int) -> Seq<u64> {
        Seq::new(self.spec_width(), |c: int| self.columns@[c]@[step])
    }

    /// The step that follows `step` in the extended trace, wrapping around at the end.
    pub open spec fn next_step(&self, step: int) -> int {
        (step + self.blowup) % (self.spec_len() as int)
    }

    pub fn width(&self) -> (r: usize)
        ensures
            r == self.spec_width(),
    {
        self.columns.len()
    }

    pub fn len(&self) -> (r: usize)
        ensures
            r == self.spec_len(),
    {
        if self.columns.len() == 0 {
            0
        } else {
            self.columns[0].len()
        }
    }

    /// Reads the rows at `lde_step` and at the step after it into `frame`.
    pub fn read_frame_into(&self, lde_step: usize, frame: &mut EvaluationFrame)
        requires
            self.wf(),
            lde_step < self.spec_len(),
            old(frame).current@.len() == self.spec_width(),
            old(frame).next@.len() == self.spec_width(),
        ensures
            final(frame).current@ == self.row(lde_step as int),
            final(frame).next@ == self.row(self.next_step(lde_step as int)),
            all_elems(final(frame).current@),
            all_elems(final(frame).next@),
    {
        let n = self.len();
        let next_step: usize = ((lde_step as u128 + self.blowup as u128) % (n as u128)) as usize;
        let width = self.columns.len();
        let mut c: usize = 0;
        while c < width
            invariant
                self.wf(),
                width == self.spec_width(),
                n == self.spec_len(),
                lde_step < n,
                next_step as int == self.next_step(lde_step as int),
                c <= width,
                frame.current@.len() == width,
                frame.next@.len() == width,
                forall|k: int|
                    0 <= k < c ==> #[trigger] frame.current@[k] == self.columns@[k]@[lde_step as int],
                forall|k: int|
                    0 <= k < c ==> #[trigger] frame.next@[k] == self.columns@[k]@[next_step as int],
            decreases width - c,
        {
            let v = self.columns[c][lde_step];
            let w = self.columns[c][next_step];
            frame.current.set(c, v);
            frame.next.set(c, w);
            c = c + 1;
        }
        assert(frame.current@ =~= self.row(lde_step as int));
        assert(frame.next@ =~= self.row(next_step as int));
        assert forall|k: int| 0 <= k < width implies is_elem(#[trigger] frame.current@[k]) by {
            assert(all_elems(self.columns@[k]@));
        }
        assert forall|k: int| 0 <= k < width implies is_elem(#[trigger] frame.next@[k]) by {
            assert(all_elems(self.columns@[k]@));
            assert(self.columns@[k]@.len() == n);
        }
    }
}

} // verus!
