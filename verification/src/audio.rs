//! Bounded audio-ingestion buffer: a fixed-capacity store of 16-bit
//! signed samples with a write cursor.
//!
//! `push` is meant to be callable from an interrupt-driven capture path:
//! it writes only into storage allocated at construction time, never
//! blocks, and completes in time bounded by the capacity.  When more
//! samples arrive than fit, the excess is dropped (reject-newest); a
//! caller that can afford no loss must drain the buffer between pushes.

use vstd::prelude::*;

verus! {

/// Fixed-capacity store of 16-bit signed PCM samples.
#[derive(Debug, Clone)]
pub struct AudioBuffer {
    /// Sample rate the buffer was sized for, in hertz.
    pub sample_rate: u32,
    /// Largest number of samples the buffer can hold.
    pub capacity: usize,
    /// Backing storage, allocated once at construction.
    pub store: Vec<i16>,
    /// Write cursor: number of samples admitted so far.
    pub count: usize,
}

impl AudioBuffer {
    /// The stored samples, oldest first, as seen by specifications.
    pub open spec fn spec_samples(&self) -> Seq<i16> {
        self.store@.take(self.count as int)
    }

    /// Structural invariant: the backing store was allocated at the
    /// capacity once and for all, and the cursor never passes it.
    pub open spec fn wf(&self) -> bool {
        &&& self.store@.len() == self.capacity
        &&& self.count <= self.capacity
    }

    /// The stored sample count never exceeds the capacity.
    pub proof fn lemma_count_bounded(&self)
        requires
            self.wf(),
        ensures
            self.spec_samples().len() <= self.capacity,
    {
    }

    /// Allocate a buffer holding `duration_ms` milliseconds of audio at
    /// `sample_rate` hertz: capacity `sample_rate * duration_ms / 1000`,
    /// truncated.
    pub fn new(sample_rate: u32, duration_ms: u32) -> (b: AudioBuffer)
        requires
            sample_rate as int * duration_ms as int / 1000 <= usize::MAX as int,
        ensures
            b.wf(),
            b.sample_rate == sample_rate,
            b.capacity as int == sample_rate as int * duration_ms as int / 1000,
            b.spec_samples() == Seq::<i16>::empty(),
    {
        proof {
            assert(0 <= (sample_rate as int * duration_ms as int) && (sample_rate as int
                * duration_ms as int) < 0x1_0000_0000_0000_0000) by (nonlinear_arith)
                requires
                    0 <= sample_rate as int && (sample_rate as int) < 0x1_0000_0000,
                    0 <= duration_ms as int && (duration_ms as int) < 0x1_0000_0000,
            ;
        }
        let cap64: u64 = sample_rate as u64 * duration_ms as u64 / 1000;
        let capacity: usize = cap64 as usize;
        let mut store: Vec<i16> = Vec::new();
        let mut i: usize = 0;
        while i < capacity
            invariant
                0 <= i <= capacity,
                store@.len() == i,
            decreases capacity - i,
        {
            store.push(0);
            i += 1;
        }
        let b = AudioBuffer { sample_rate, capacity, store, count: 0 };
        proof {
            assert(b.spec_samples() =~= Seq::<i16>::empty());
        }
        b
    }

    /// Admit as many of the given samples as still fit; the excess is
    /// dropped, not stored elsewhere and not retried.  Writes only into
    /// preallocated storage.
    pub fn push(&mut self, samples: &[i16])
        requires
            old(self).wf(),
        ensures
            final(self).wf(),
            final(self).sample_rate == old(self).sample_rate,
            final(self).capacity == old(self).capacity,
            final(self).spec_samples() == old(self).spec_samples() + samples@.take(
                if samples@.len() <= old(self).capacity - old(self).spec_samples().len() {
                    samples@.len() as int
                } else {
                    old(self).capacity - old(self).spec_samples().len()
                },
            ),
    {
        let ghost admitted = if samples@.len() <= old(self).capacity - old(
            self,
        ).spec_samples().len() {
            samples@.len() as int
        } else {
            old(self).capacity - old(self).spec_samples().len()
        };
        let n: usize = samples.len();
        let mut i: usize = 0;
        while i < n && self.count < self.capacity
            invariant
                0 <= i <= n,
                n == samples@.len(),
                self.wf(),
                self.sample_rate == old(self).sample_rate,
                self.capacity == old(self).capacity,
                self.count as int == old(self).count as int + i,
                i <= admitted,
                admitted == (if samples@.len() <= old(self).capacity - old(
                    self,
                ).spec_samples().len() {
                    samples@.len() as int
                } else {
                    old(self).capacity - old(self).spec_samples().len()
                }),
                old(self).spec_samples().len() == old(self).count,
                self.spec_samples() =~= old(self).spec_samples() + samples@.take(i as int),
            decreases n - i,
        {
            let ghost pre_store = self.store@;
            let ghost pre_count = self.count as int;
            self.store.set(self.count, samples[i]);
            self.count = self.count + 1;
            proof {
                assert(self.store@ == pre_store.update(pre_count, samples@[i as int]));
                assert(samples@.take(i as int + 1) =~= samples@.take(i as int).push(
                    samples@[i as int],
                ));
                assert(self.spec_samples() =~= pre_store.take(pre_count).push(
                    samples@[i as int],
                ));
                assert(self.spec_samples() =~= old(self).spec_samples() + samples@.take(
                    i as int + 1,
                ));
            }
            i += 1;
        }
        proof {
            assert(i == admitted);
            assert(self.spec_samples() =~= old(self).spec_samples() + samples@.take(admitted));
        }
    }

    /// Copy of the currently stored samples, oldest first; its length
    /// never exceeds the capacity.
    pub fn get_samples(&self) -> (r: Vec<i16>)
        requires
            self.wf(),
        ensures
            r@ == self.spec_samples(),
            r@.len() <= self.capacity,
    {
        let mut out: Vec<i16> = Vec::new();
        let mut i: usize = 0;
        while i < self.count
            invariant
                0 <= i <= self.count,
                self.wf(),
                out@ =~= self.spec_samples().take(i as int),
            decreases self.count - i,
        {
            out.push(self.store[i]);
            i += 1;
        }
        proof {
            assert(self.spec_samples().take(self.count as int) =~= self.spec_samples());
        }
        out
    }

    /// Number of samples currently stored.
    pub fn len(&self) -> (r: usize)
        requires
            self.wf(),
        ensures
            r == self.spec_samples().len(),
    {
        self.count
    }

    /// Drop every stored sample; the capacity is unchanged.
    pub fn clear(&mut self)
        requires
            old(self).wf(),
        ensures
            final(self).wf(),
            final(self).sample_rate == old(self).sample_rate,
            final(self).capacity == old(self).capacity,
            final(self).spec_samples() == Seq::<i16>::empty(),
    {
        self.count = 0;
        proof {
            assert(self.spec_samples() =~= Seq::<i16>::empty());
        }
    }
}

} // verus!
