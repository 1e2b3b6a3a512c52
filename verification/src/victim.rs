//! Victims of a hammering round: memory that is filled with a pattern before
//! the round and checked against it afterwards.
use vstd::prelude::*;
use crate::constants::PAGE_SIZE;
use crate::content::{VictimMemory, check_excluding, initialize_excluding, flips_against, initialized};
use crate::pattern::{BitFlip, DataPattern};

verus! {

/// Errors that can occur during victim operations.
#[derive(Debug)]
pub enum HammerVictimError {
    /// No bit flips were detected during the check.
    NoFlips,
    /// The victim is not currently running.
    NotRunning,
    /// The expected page was not found.
    FlippyPageNotFound,
    /// The page lies at another offset than expected.
    FlippyPageOffsetMismatch {
        /// Expected page offset.
        expected: usize,
        /// Offset at which the page was found.
        actual: usize,
    },
    /// A protocol-level error occurred in the communication with the victim.
    ProtocolError(String),
}

/// Result of a victim check.
#[derive(Debug)]
pub enum VictimResult {
    /// One or more bit flips were detected at specific memory locations.
    BitFlips(Vec<BitFlip>),
    /// A string that describes the outcome.
    String(String),
    /// Several strings that describe the outcome.
    Strings(Vec<String>),
    /// No meaningful result to report.
    Nothing,
}

impl VictimResult {
    /// Extracts the bit flips from this result.
    pub fn bit_flips(self) -> (r: Vec<BitFlip>)
        requires
            self is BitFlips,
        ensures
            r == self->BitFlips_0,
    {
        match self {
            VictimResult::BitFlips(flips) => flips,
            _ => Vec::new(),
        }
    }

    /// The bit flips of this result, or `None` where it holds none.
    pub fn into_bit_flips(self) -> (r: Option<Vec<BitFlip>>)
        ensures
            r.is_some() <==> self is BitFlips,
            r.is_some() ==> r.unwrap() == self->BitFlips_0,
    {
        match self {
            VictimResult::BitFlips(flips) => Some(flips),
            _ => None,
        }
    }
}

/// The life cycle of a victim: started once, then initialized and checked
/// around each hammering round, and stopped at the end.
pub trait VictimOrchestrator {
    /// What the victim needs to hold of itself between calls.
    spec fn inv(&self) -> bool;

    /// Starts the victim.
    fn start(&mut self) -> (r: Result<(), HammerVictimError>)
        requires
            old(self).inv(),
        ensures
            final(self).inv(),
    ;

    /// Brings the victim into a known state before a hammering round.
    fn init(&mut self)
        requires
            old(self).inv(),
        ensures
            final(self).inv(),
    ;

    /// Checks whether the round had an effect on the victim.
    fn check(&mut self) -> (r: Result<VictimResult, HammerVictimError>)
        requires
            old(self).inv(),
        ensures
            final(self).inv(),
    ;

    /// Stops the victim.
    fn stop(&mut self)
        requires
            old(self).inv(),
        ensures
            final(self).inv(),
    ;
}

/// Addresses of the pages that are left out when memory is filled or checked.
#[derive(Clone, Debug)]
pub struct ExcludeFromInit(pub Vec<usize>);

/// Victim that checks memory against the pattern it was filled with.
#[derive(Debug)]
pub struct MemCheck<M: VictimMemory> {
    /// The memory that is filled and checked.
    pub memory: M,
    /// The expected data pattern.
    pub pattern: DataPattern,
    /// The pages that are left out.
    pub excluding: ExcludeFromInit,
}

/// What a check of memory gives: the flips where there are any, and the error
/// that none was found where there is none.
pub fn flips_result(flips: Vec<BitFlip>) -> (r: Result<VictimResult, HammerVictimError>)
    ensures
        flips@.len() > 0 ==> r is Ok && r->Ok_0 is BitFlips && r->Ok_0->BitFlips_0 == flips,
        flips@.len() == 0 ==> r is Err && r->Err_0 is NoFlips,
{
    if flips.len() > 0 {
        Ok(VictimResult::BitFlips(flips))
    } else {
        Err(HammerVictimError::NoFlips)
    }
}

impl<M: VictimMemory> MemCheck<M> {
    /// Creates a new memory-checking victim.
    pub fn new(memory: M, pattern: DataPattern, excluding: ExcludeFromInit) -> (r: Self)
        ensures
            r.memory == memory,
            r.pattern == pattern,
            r.excluding == excluding,
    {
        MemCheck { memory, pattern, excluding }
    }
}

impl<M: VictimMemory> VictimOrchestrator for MemCheck<M> {
    open spec fn inv(&self) -> bool {
        self.memory.wf() && self.memory.spec_len() % PAGE_SIZE == 0
    }

    fn start(&mut self) -> (r: Result<(), HammerVictimError>)
        ensures
            r is Ok,
            *final(self) == *old(self),
    {
        Ok(())
    }

    /// Fills the memory with the pattern from its start, leaving out the
    /// excluded pages.
    fn init(&mut self)
        ensures
            final(self).excluding == old(self).excluding,
            final(self).pattern == old(self).pattern,
            initialized(
                &old(self).memory,
                &final(self).memory,
                old(self).pattern@.restarted(),
                old(self).excluding.0@,
            ),
    {
        let pattern = self.pattern.clone();
        initialize_excluding(&mut self.memory, pattern, &self.excluding.0);
    }

    /// Checks the memory against the pattern from its start, leaving out the
    /// excluded pages. Finding no flip is the error `NoFlips`.
    fn check(&mut self) -> (r: Result<VictimResult, HammerVictimError>)
        ensures
            *final(self) == *old(self),
            r is Ok ==> r->Ok_0 is BitFlips && r->Ok_0->BitFlips_0@.len() > 0,
            r is Err ==> r->Err_0 is NoFlips,
            (match r {
                Ok(v) => v->BitFlips_0@,
                Err(_) => Seq::<BitFlip>::empty(),
            }) == flips_against(&old(self).memory, old(self).pattern@.restarted(), old(self).excluding.0@),
    {
        let pattern = self.pattern.clone();
        let flips = check_excluding(&self.memory, pattern, &self.excluding.0);
        flips_result(flips)
    }

    fn stop(&mut self)
        ensures
            *final(self) == *old(self),
    {
    }
}

/// The flips of the targets whose byte no longer holds the expected value.
///
/// `values` holds the byte that was read at the address of each target.
pub open spec fn target_flips(targets: Seq<BitFlip>, values: Seq<u8>, n: nat) -> Seq<BitFlip>
    decreases n,
{
    if n == 0 {
        Seq::empty()
    } else {
        let before = target_flips(targets, values, (n - 1) as nat);
        let t = targets[n - 1];
        let v = values[n - 1];
        if v != t.data {
            before.push(BitFlip { addr: t.addr, bitmask: t.data ^ v, data: t.data })
        } else {
            before
        }
    }
}

/// Victim that checks the bytes of given targets only.
#[derive(Debug)]
pub struct HammerVictimTargetCheck<M: VictimMemory> {
    /// The memory that holds the targets.
    pub memory: M,
    /// The data pattern that the memory is filled with.
    pub pattern: DataPattern,
    /// The flips that are looked for: address and expected byte of each.
    pub targets: Vec<BitFlip>,
}

impl<M: VictimMemory> HammerVictimTargetCheck<M> {
    /// Creates a new target-checking victim.
    pub fn new(memory: M, pattern: DataPattern, targets: Vec<BitFlip>) -> (r: Self)
        ensures
            r.memory == memory,
            r.pattern == pattern,
            r.targets == targets,
    {
        HammerVictimTargetCheck { memory, pattern, targets }
    }

    /// Compares the bytes that were read at the targets with the expected
    /// ones. Finding no flip is the error `NoFlips`.
    pub fn check_values(&self, values: &Vec<u8>) -> (r: Result<VictimResult, HammerVictimError>)
        requires
            values@.len() == self.targets@.len(),
        ensures
            (match r {
                Ok(v) => v is BitFlips && v->BitFlips_0@.len() > 0 && v->BitFlips_0@ == target_flips(
                    self.targets@,
                    values@,
                    self.targets@.len(),
                ),
                Err(e) => e is NoFlips && target_flips(self.targets@, values@, self.targets@.len()).len() == 0,
            }),
    {
        let mut flips: Vec<BitFlip> = Vec::new();
        let mut i: usize = 0;
        while i < self.targets.len()
            invariant
                i <= self.targets@.len(),
                values@.len() == self.targets@.len(),
                flips@ == target_flips(self.targets@, values@, i as nat),
            decreases self.targets@.len() - i,
        {
            let target = self.targets[i];
            let value = values[i];
            if value != target.data {
                flips.push(BitFlip::new(target.addr, target.data ^ value, target.data));
            }
            i += 1;
        }
        flips_result(flips)
    }
}

} // verus!
