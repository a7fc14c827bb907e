//! The counting rules of training: when a plateau scheduler cuts the
//! learning rate, when a gradient scaler grows or backs off, and which
//! sample and update each step of the training loop uses.
use vstd::prelude::*;

verus! {

/// Whether a plateau scheduler watches a metric that should fall or rise.
#[derive(Debug, Clone, Copy, PartialEq, Eq, Structural)]
pub enum BlackPlateauMode {
    BlackMin,
    BlackMax,
}

/// The epoch counting of a plateau scheduler: how many epochs in a row the
/// metric has not improved, and how many are tolerated.
#[derive(Debug)]
pub struct BlackPlateauCounter {
    black_patience: u64,
    black_num_bad_epochs: u64,
}

impl BlackPlateauCounter {
    /// The count never passes the patience between epochs.
    #[verifier::type_invariant]
    spec fn black_wf(self) -> bool {
        self.black_num_bad_epochs <= self.black_patience
    }

    /// The epochs in a row without improvement.
    pub closed spec fn black_bad_epochs(self) -> u64 {
        self.black_num_bad_epochs
    }

    /// The epochs without improvement that are tolerated.
    pub closed spec fn black_patience_spec(self) -> u64 {
        self.black_patience
    }

    pub fn black_patience(&self) -> (r: u64)
        ensures
            r == self.black_patience_spec(),
    {
        self.black_patience
    }

    pub fn black_new(black_patience: u64) -> (r: Self)
        ensures
            r.black_patience_spec() == black_patience,
            r.black_bad_epochs() == 0,
    {
        BlackPlateauCounter { black_patience, black_num_bad_epochs: 0 }
    }

    pub fn black_num_bad_epochs(&self) -> (r: u64)
        ensures
            r == self.black_bad_epochs(),
            r <= self.black_patience_spec(),
    {
        proof {
            use_type_invariant(self);
        }
        self.black_num_bad_epochs
    }

    /// Records one epoch. An improvement clears the count; otherwise the
    /// count grows, and once it passes the patience the learning rate is to
    /// be cut (the answer is `true`) and the count starts over.
    pub fn black_record(&mut self, black_improved: bool) -> (r: bool)
        requires
            old(self).black_bad_epochs() < u64::MAX,
        ensures
            final(self).black_patience_spec() == old(self).black_patience_spec(),
            black_improved ==> !r && final(self).black_bad_epochs() == 0,
            !black_improved && old(self).black_bad_epochs() + 1 > old(self).black_patience_spec() ==> r
                && final(self).black_bad_epochs() == 0,
            !black_improved && old(self).black_bad_epochs() + 1 <= old(self).black_patience_spec() ==> !r
                && final(self).black_bad_epochs() == old(self).black_bad_epochs() + 1,
    {
        proof {
            use_type_invariant(&*self);
        }
        if black_improved {
            self.black_num_bad_epochs = 0;
        } else {
            if self.black_num_bad_epochs + 1 > self.black_patience {
                self.black_num_bad_epochs = 0;
                return true;
            }
            self.black_num_bad_epochs = self.black_num_bad_epochs + 1;
        }
        false
    }
}

/// What a gradient scaler does to its scale after a step.
#[derive(Debug, Clone, Copy, PartialEq, Eq, Structural)]
pub enum BlackScaleAction {
    /// The gradients were finite and enough clean steps have passed: grow.
    BlackGrow,
    /// The gradients were finite: keep the scale.
    BlackKeep,
    /// Some gradient was not finite: back off and skip the update.
    BlackBackoff,
}

/// The step counting of a gradient scaler.
#[derive(Debug, Clone)]
pub struct BlackScalerCounter {
    pub black_growth_interval: u64,
    pub black_step_count: u64,
    pub black_consecutive_clean: u64,
}

impl BlackScalerCounter {
    /// The counters of a fresh scaler that grows every 2000 clean steps.
    pub fn black_new() -> (r: Self)
        ensures
            r.black_growth_interval == 2000,
            r.black_step_count == 0,
            r.black_consecutive_clean == 0,
    {
        BlackScalerCounter { black_growth_interval: 2000, black_step_count: 0, black_consecutive_clean: 0 }
    }

    /// Records a step whose gradients were finite or not, and says what to
    /// do with the scale: a non-finite step backs off and clears the run of
    /// clean steps; a clean step extends it, and growth comes (clearing the
    /// run) once the run reaches the growth interval.
    pub fn black_record(&mut self, black_finite: bool) -> (r: BlackScaleAction)
        requires
            old(self).black_step_count < u64::MAX,
            old(self).black_consecutive_clean < u64::MAX,
        ensures
            final(self).black_growth_interval == old(self).black_growth_interval,
            final(self).black_step_count == old(self).black_step_count + 1,
            !black_finite ==> r == BlackScaleAction::BlackBackoff && final(self).black_consecutive_clean
                == 0,
            black_finite && old(self).black_consecutive_clean + 1 >= old(self).black_growth_interval ==> r
                == BlackScaleAction::BlackGrow && final(self).black_consecutive_clean == 0,
            black_finite && old(self).black_consecutive_clean + 1 < old(self).black_growth_interval ==> r
                == BlackScaleAction::BlackKeep && final(self).black_consecutive_clean
                == old(self).black_consecutive_clean + 1,
    {
        let black_action;
        if black_finite {
            self.black_consecutive_clean = self.black_consecutive_clean + 1;
            if self.black_consecutive_clean >= self.black_growth_interval {
                self.black_consecutive_clean = 0;
                black_action = BlackScaleAction::BlackGrow;
            } else {
                black_action = BlackScaleAction::BlackKeep;
            }
        } else {
            self.black_consecutive_clean = 0;
            black_action = BlackScaleAction::BlackBackoff;
        }
        self.black_step_count = self.black_step_count + 1;
        black_action
    }
}

/// The plan of step `black_step` of a training loop over `black_num_samples`
/// samples that applies the optimizer every `black_grad_accum_steps` steps:
/// the sample it trains on (the samples are used in turn) and whether the
/// step ends an accumulation window.
pub fn black_train_step_plan(black_step: usize, black_grad_accum_steps: usize, black_num_samples: usize) -> (r: (
    usize,
    bool,
))
    requires
        black_num_samples > 0,
        black_grad_accum_steps > 0,
        black_step < usize::MAX,
    ensures
        r.0 == black_step % black_num_samples,
        r.1 == ((black_step + 1) % (black_grad_accum_steps as int) == 0),
{
    (black_step % black_num_samples, (black_step + 1) % black_grad_accum_steps == 0)
}

} // verus!
