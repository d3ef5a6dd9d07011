//! Processing blocks chained into a sequence that feeds each block's
//! output to the next.

use vstd::prelude::*;
use crate::parameter::ParameterValue;

verus! {

/// A processing block: it consumes a batch of values and produces the next
/// batch, possibly updating its own state. Implemented by the embedding
/// program's blocks; each implementation supplies the specification-level
/// account of its step that its `process` must match.
pub trait ProcessTrait: Sized {
    /// The block's step: its next state and its output batch.
    spec fn process_spec(&self, inputs: Seq<ParameterValue>) -> (Self, Seq<ParameterValue>);

    fn process(&mut self, inputs: Vec<ParameterValue>) -> (r: Vec<ParameterValue>)
        ensures
            (*final(self), r@) == old(self).process_spec(inputs@),
    ;

    fn get_name(&self) -> String;

    fn get_description(&self) -> String;
}

/// The states and outputs after running every block of `ps` in order,
/// starting from the given inputs.
pub open spec fn run_seq<P: ProcessTrait>(ps: Seq<(u64, P)>, inputs: Seq<ParameterValue>) -> (
    Seq<(u64, P)>,
    Seq<ParameterValue>,
)
    decreases ps.len(),
{
    if ps.len() == 0 {
        (ps, inputs)
    } else {
        let stepped = ps[0].1.process_spec(inputs);
        let rest = run_seq(ps.drop_first(), stepped.1);
        (seq![(ps[0].0, stepped.0)] + rest.0, rest.1)
    }
}

/// An entry of the sequence carries this block identifier.
pub open spec fn has_id<P: ProcessTrait>(ps: Seq<(u64, P)>, id: u64) -> bool {
    exists|i: int| 0 <= i < ps.len() && (#[trigger] ps[i]).0 == id
}

/// An ordered chain of identified processing blocks.
pub struct ProcessSequence<P: ProcessTrait> {
    pub processes: Vec<(u64, P)>,
}

impl<P: ProcessTrait> ProcessSequence<P> {
    /// An empty chain.
    pub fn new() -> (r: Self)
        ensures
            r.processes@.len() == 0,
    {
        ProcessSequence { processes: Vec::new() }
    }

    /// Appends a block under the given identifier, or under the current
    /// block count when none is given. The identifier 0 is reserved, and an
    /// identifier already in use is not accepted.
    pub fn add_process(&mut self, process: P, block_id: Option<u64>)
        requires
            ({
                let id = (match block_id {
                    Some(given) => given as int,
                    None => old(self).processes@.len() as int,
                });
                id != 0 && !has_id(old(self).processes@, id as u64)
            }),
            old(self).processes@.len() < u64::MAX,
        ensures
            ({
                let id = (match block_id {
                    Some(given) => given as int,
                    None => old(self).processes@.len() as int,
                });
                final(self).processes@ == old(self).processes@.push((id as u64, process))
            }),
    {
        let id = match block_id {
            Some(given) => given,
            None => self.processes.len() as u64,
        };
        self.processes.push((id, process));
    }

    /// Runs every block in order, feeding each one the previous output; the
    /// blocks' updated states stay in the chain.
    pub fn execute(&mut self, inputs: Vec<ParameterValue>) -> (r: Vec<ParameterValue>)
        ensures
            (final(self).processes@, r@) == run_seq(old(self).processes@, inputs@),
    {
        let ghost orig = self.processes@;
        let ghost orig_in = inputs@;
        let mut done: Vec<(u64, P)> = Vec::new();
        let mut current = inputs;
        while self.processes.len() > 0
            invariant
                run_seq(orig, orig_in) == ({
                    let rest = run_seq(self.processes@, current@);
                    (done@ + rest.0, rest.1)
                }),
            decreases self.processes@.len(),
        {
            let ghost before = self.processes@;
            let ghost cur0 = current@;
            let (id, mut p) = self.processes.remove(0);
            let out = p.process(current);
            current = out;
            done.push((id, p));
            proof {
                assert(self.processes@ =~= before.drop_first());
                let stepped = before[0].1.process_spec(cur0);
                assert((p, current@) == stepped);
                assert(run_seq(before, cur0) == (
                    seq![(before[0].0, stepped.0)] + run_seq(before.drop_first(), stepped.1).0,
                    run_seq(before.drop_first(), stepped.1).1,
                ));
                assert(done@.drop_last() + (seq![(before[0].0, stepped.0)] + run_seq(
                    before.drop_first(),
                    stepped.1,
                ).0) =~= done@ + run_seq(before.drop_first(), stepped.1).0);
            }
        }
        proof {
            assert(done@ + run_seq(self.processes@, current@).0 =~= done@);
        }
        self.processes = done;
        current
    }
}

} // verus!
