//! Rate conversion, chunk by chunk. The converter itself works on blocks of
//! a fixed size and lives outside this library; what is decided here is
//! which blocks it is given, and what is kept of its answers, so that the
//! result has the duration of the input.

use vstd::prelude::*;
use crate::mixer::{padded, Sample};

verus! {

/// Whether nothing is to be converted: the rates agree, or there are no
/// samples.
pub open spec fn passes_through(len: nat, from_rate: int, to_rate: int) -> bool {
    from_rate == to_rate || len == 0
}

/// The number of output samples that `remaining` input samples amount to:
/// `remaining * to_rate / from_rate`, rounded up.
pub open spec fn tail_len(remaining: int, from_rate: int, to_rate: int) -> int {
    (remaining * to_rate + from_rate - 1) / from_rate
}

/// The share of the remainder is its exact duration at the new rate, rounded
/// up to a whole sample: it is never short of `remaining * to_rate /
/// from_rate`, and exceeds it by less than one sample.
pub proof fn lemma_tail_len_rounds_up(remaining: int, from_rate: int, to_rate: int)
    requires
        0 <= remaining,
        0 < from_rate,
        0 <= to_rate,
    ensures
        (tail_len(remaining, from_rate, to_rate) - 1) * from_rate < remaining * to_rate
            <= tail_len(remaining, from_rate, to_rate) * from_rate,
{
    let n = remaining * to_rate + from_rate - 1;
    assert(0 <= remaining * to_rate) by (nonlinear_arith)
        requires
            0 <= remaining,
            0 <= to_rate,
    ;
    assert(n == from_rate * (n / from_rate) + n % from_rate && 0 <= n % from_rate < from_rate)
        by (nonlinear_arith)
        requires
            from_rate > 0,
    ;
    assert((n / from_rate - 1) * from_rate == from_rate * (n / from_rate) - from_rate
        && (n / from_rate) * from_rate == from_rate * (n / from_rate)) by (nonlinear_arith);
}

/// The last, incomplete block: the remaining samples continued with silence
/// to the size of a block.
pub open spec fn padded_block(rest: Seq<Sample>, size: int) -> Seq<Sample> {
    Seq::new(size as nat, |i: int| padded(rest, i))
}

/// A conversion in progress.
pub struct Resampler {
    /// The samples to convert, at `from_rate`.
    pub input: Vec<Sample>,
    pub from_rate: u32,
    pub to_rate: u32,
    /// How many input samples have been handed out in blocks.
    pub pos: usize,
    /// A block has been handed out and its answer is still to come.
    pub awaiting: bool,
    /// The block handed out last was the padded remainder, of whose answer
    /// at most this many samples are kept.
    pub tail_limit: Option<u128>,
    /// The converted samples so far, at `to_rate`.
    pub output: Vec<Sample>,
}

impl Resampler {
    /// The state is consistent.
    pub open spec fn wf(&self) -> bool {
        &&& self.from_rate > 0
        &&& self.pos <= self.input@.len()
        &&& self.tail_limit is Some ==> self.awaiting && self.pos == self.input@.len()
    }

    /// Nothing is left to hand out or to wait for.
    pub open spec fn done(&self) -> bool {
        self.pos == self.input@.len() && !self.awaiting
    }

    /// What is kept of the converter's answer `produced` to the block that
    /// was handed out last: all of it for a full block, at most `tail_limit`
    /// samples for the padded remainder, nothing if no block is out.
    pub open spec fn kept(&self, produced: Seq<Sample>) -> Seq<Sample> {
        if !self.awaiting {
            Seq::empty()
        } else {
            match self.tail_limit {
                Some(limit) => if limit < produced.len() {
                    produced.take(limit as int)
                } else {
                    produced
                },
                None => produced,
            }
        }
    }

    /// Starts a conversion of `samples` from `from_rate` to `to_rate`. Where
    /// the rates agree, or there are no samples, the conversion is done at
    /// once and its result is the input.
    pub fn new(samples: Vec<Sample>, from_rate: u32, to_rate: u32) -> (job: Resampler)
        requires
            from_rate > 0,
        ensures
            job.wf(),
            job.input@ == samples@,
            job.from_rate == from_rate,
            job.to_rate == to_rate,
            !job.awaiting,
            job.tail_limit is None,
            passes_through(samples@.len(), from_rate as int, to_rate as int) ==> job.done()
                && job.output@ == samples@,
            !passes_through(samples@.len(), from_rate as int, to_rate as int) ==> job.pos == 0
                && job.output@.len() == 0,
    {
        let mut output: Vec<Sample> = Vec::new();
        let len = samples.len();
        let pos = if from_rate == to_rate || len == 0 {
            output.extend_from_slice(samples.as_slice());
            assert(output@ =~= samples@);
            len
        } else {
            0
        };
        Resampler {
            input: samples,
            from_rate,
            to_rate,
            pos,
            awaiting: false,
            tail_limit: None,
            output,
        }
    }

    /// Whether the conversion is done.
    pub fn is_done(&self) -> (done: bool)
        ensures
            done == self.done(),
    {
        self.pos == self.input.len() && !self.awaiting
    }

    /// Takes the converter's answer to the block handed out last, and hands
    /// out the next block of `chunk_size` samples, or `None` when the input
    /// is used up.
    ///
    /// Full blocks are handed out while the input lasts. A shorter remainder
    /// is handed out padded with silence, and of the answer to it only the
    /// first `tail_len` samples are kept, so that the padding adds nothing
    /// to the result. Before the first block there is no answer: `produced`
    /// is then ignored.
    pub fn advance(&mut self, produced: &[Sample], chunk_size: usize) -> (block: Option<
        Vec<Sample>,
    >)
        requires
            old(self).wf(),
            chunk_size > 0,
        ensures
            final(self).wf(),
            final(self).input@ == old(self).input@,
            final(self).from_rate == old(self).from_rate,
            final(self).to_rate == old(self).to_rate,
            final(self).output@ == old(self).output@ + old(self).kept(produced@),
            old(self).pos + chunk_size <= old(self).input@.len() ==> {
                &&& block matches Some(b)
                &&& b@ == old(self).input@.subrange(
                    old(self).pos as int,
                    old(self).pos + chunk_size,
                )
                &&& final(self).pos == old(self).pos + chunk_size
                &&& final(self).awaiting
                &&& final(self).tail_limit is None
            },
            old(self).pos < old(self).input@.len() < old(self).pos + chunk_size ==> {
                &&& block matches Some(b)
                &&& b@ == padded_block(old(self).input@.skip(old(self).pos as int), chunk_size as int)
                &&& final(self).pos == old(self).input@.len()
                &&& final(self).awaiting
                &&& final(self).tail_limit == Some(
                    tail_len(
                        old(self).input@.len() - old(self).pos,
                        old(self).from_rate as int,
                        old(self).to_rate as int,
                    ) as u128,
                )
            },
            old(self).pos == old(self).input@.len() ==> block is None && final(self).done()
                && final(self).tail_limit is None,
    {
        if self.awaiting {
            let keep: usize = match self.tail_limit {
                Some(limit) => if limit < produced.len() as u128 {
                    limit as usize
                } else {
                    produced.len()
                },
                None => produced.len(),
            };
            let ghost before = self.output@;
            let mut i: usize = 0;
            while i < keep
                invariant
                    i <= keep <= produced@.len(),
                    self.output@ == before + produced@.take(i as int),
                    self.input@ == old(self).input@,
                    self.from_rate == old(self).from_rate,
                    self.to_rate == old(self).to_rate,
                    self.pos == old(self).pos,
                decreases keep - i,
            {
                self.output.push(produced[i]);
                assert(produced@.take(i + 1) =~= produced@.take(i as int).push(produced@[i as int]));
                i += 1;
            }
            assert(produced@.take(produced@.len() as int) =~= produced@);
        }
        assert(self.output@ =~= old(self).output@ + old(self).kept(produced@));
        let len = self.input.len();
        let remaining = len - self.pos;
        if remaining == 0 {
            self.awaiting = false;
            self.tail_limit = None;
            None
        } else if remaining >= chunk_size {
            let mut block: Vec<Sample> = Vec::new();
            let mut i: usize = 0;
            while i < chunk_size
                invariant
                    i <= chunk_size <= remaining,
                    remaining == len - self.pos,
                    len == self.input@.len(),
                    block@ == self.input@.subrange(self.pos as int, self.pos + i),
                decreases chunk_size - i,
            {
                block.push(self.input[self.pos + i]);
                assert(self.input@.subrange(self.pos as int, self.pos + i + 1)
                    =~= self.input@.subrange(self.pos as int, self.pos + i).push(
                    self.input@[self.pos + i],
                ));
                i += 1;
            }
            self.pos = self.pos + chunk_size;
            self.awaiting = true;
            self.tail_limit = None;
            Some(block)
        } else {
            let ghost rest = self.input@.skip(self.pos as int);
            let mut block: Vec<Sample> = Vec::new();
            let mut i: usize = 0;
            while i < chunk_size
                invariant
                    i <= chunk_size,
                    0 < remaining < chunk_size,
                    remaining == len - self.pos,
                    len == self.input@.len(),
                    rest == self.input@.skip(self.pos as int),
                    block@.len() == i,
                    forall|k: int| 0 <= k < i ==> #[trigger] block@[k] == padded(rest, k),
                decreases chunk_size - i,
            {
                let value = if i < remaining {
                    self.input[self.pos + i]
                } else {
                    0
                };
                block.push(value);
                i += 1;
            }
            assert(block@ =~= padded_block(rest, chunk_size as int));
            let from = self.from_rate as u128;
            assert(remaining * self.to_rate <= 0xffff_ffff_ffff_ffff * 0xffff_ffff)
                by (nonlinear_arith)
                requires
                    0 <= remaining <= 0xffff_ffff_ffff_ffff,
                    0 <= self.to_rate <= 0xffff_ffff,
            ;
            let limit: u128 = ((remaining as u128) * (self.to_rate as u128) + from - 1) / from;
            self.pos = len;
            self.awaiting = true;
            self.tail_limit = Some(limit);
            Some(block)
        }
    }

    /// The converted samples.
    pub fn finish(self) -> (output: Vec<Sample>)
        ensures
            output@ == self.output@,
    {
        self.output
    }
}

} // verus!
