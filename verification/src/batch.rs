//! Bookkeeping of a conversion batch. Files are converted one at a time; a
//! file that fails is recorded with its reason and the batch goes on with
//! the next one. Each recorded file yields a progress report.
use vstd::prelude::*;

use crate::error::Error;

verus! {

/// A file that was converted, and where its JPEG was written.
#[derive(Clone, Debug, PartialEq, Eq)]
pub struct ConvertedFile {
    pub input: String,
    pub output: String,
}

/// A file that could not be converted, and why.
#[derive(Clone, Debug, PartialEq, Eq)]
pub struct ConversionFailure {
    pub input: String,
    pub reason: String,
}

/// The result of a batch: converted files and failures, each in the order
/// the files were processed.
#[derive(Clone, Debug, Default, PartialEq, Eq)]
pub struct ConversionSummary {
    pub converted: Vec<ConvertedFile>,
    pub failed: Vec<ConversionFailure>,
}

/// Reported after each file: how many files are done out of how many, which
/// file was just processed, and whether it was converted.
#[derive(Clone, Debug, PartialEq, Eq)]
pub struct ConversionProgress {
    pub processed: usize,
    pub total: usize,
    pub input: String,
    pub succeeded: bool,
}

/// An input paired with its output path or its failure reason.
pub type Entry = (Seq<char>, Seq<char>);

/// What happened to one file: `Ok(output path)` or `Err(reason)`.
pub type Outcome = Result<Seq<char>, Seq<char>>;

impl View for ConvertedFile {
    type V = Entry;

    open spec fn view(&self) -> Entry {
        (self.input@, self.output@)
    }
}

impl View for ConversionFailure {
    type V = Entry;

    open spec fn view(&self) -> Entry {
        (self.input@, self.reason@)
    }
}

impl View for ConversionSummary {
    type V = (Seq<Entry>, Seq<Entry>);

    open spec fn view(&self) -> (Seq<Entry>, Seq<Entry>) {
        (
            self.converted@.map_values(|f: ConvertedFile| f@),
            self.failed@.map_values(|f: ConversionFailure| f@),
        )
    }
}

/// The view of an outcome handed in by the caller.
pub open spec fn outcome_view(outcome: Result<String, String>) -> Outcome {
    match outcome {
        Ok(output) => Ok(output@),
        Err(reason) => Err(reason@),
    }
}

/// The converted files after the first `outcomes.len()` inputs had these
/// outcomes: each input whose outcome is `Ok`, with its output, in order.
pub open spec fn converted_of(inputs: Seq<Seq<char>>, outcomes: Seq<Outcome>) -> Seq<Entry>
    decreases outcomes.len(),
{
    if outcomes.len() == 0 {
        seq![]
    } else {
        let i = outcomes.len() - 1;
        let rest = converted_of(inputs, outcomes.drop_last());
        match outcomes.last() {
            Ok(output) => rest.push((inputs[i], output)),
            Err(_) => rest,
        }
    }
}

/// The failures after the first `outcomes.len()` inputs had these outcomes:
/// each input whose outcome is `Err`, with its reason, in order.
pub open spec fn failed_of(inputs: Seq<Seq<char>>, outcomes: Seq<Outcome>) -> Seq<Entry>
    decreases outcomes.len(),
{
    if outcomes.len() == 0 {
        seq![]
    } else {
        let i = outcomes.len() - 1;
        let rest = failed_of(inputs, outcomes.drop_last());
        match outcomes.last() {
            Ok(_) => rest,
            Err(reason) => rest.push((inputs[i], reason)),
        }
    }
}

/// The summary after these outcomes.
pub open spec fn summary_of(inputs: Seq<Seq<char>>, outcomes: Seq<Outcome>) -> (
    Seq<Entry>,
    Seq<Entry>,
) {
    (converted_of(inputs, outcomes), failed_of(inputs, outcomes))
}

/// Every processed file is accounted for exactly once: the converted files
/// and the failures together are as many as the outcomes, and the
/// converted files are as many as the successful outcomes.
pub proof fn lemma_every_file_accounted(inputs: Seq<Seq<char>>, outcomes: Seq<Outcome>)
    ensures
        converted_of(inputs, outcomes).len() + failed_of(inputs, outcomes).len() == outcomes.len(),
        converted_of(inputs, outcomes).len() == outcomes.filter(|o: Outcome| o is Ok).len(),
    decreases outcomes.len(),
{
    if outcomes.len() > 0 {
        lemma_every_file_accounted(inputs, outcomes.drop_last());
        let f = |o: Outcome| o is Ok;
        assert(outcomes =~= outcomes.drop_last().push(outcomes.last()));
        outcomes.drop_last().lemma_filter_push(outcomes.last(), f);
    } else {
        assert(outcomes.filter(|o: Outcome| o is Ok) =~= seq![]);
    }
}

/// Each failure carries its input and the reason that input was given, and
/// each converted file its input and output: the entries are those of the
/// outcomes, in order.
pub proof fn lemma_entries_follow_outcomes(
    inputs: Seq<Seq<char>>,
    outcomes: Seq<Outcome>,
    i: int,
)
    requires
        0 <= i < outcomes.len(),
    ensures
        outcomes[i] matches Ok(output) ==> converted_of(inputs, outcomes).contains(
            (inputs[i], output),
        ),
        outcomes[i] matches Err(reason) ==> failed_of(inputs, outcomes).contains(
            (inputs[i], reason),
        ),
    decreases outcomes.len(),
{
    let last = outcomes.len() - 1;
    if i < last {
        lemma_entries_follow_outcomes(inputs, outcomes.drop_last(), i);
        assert(outcomes.drop_last()[i] == outcomes[i]);
        match outcomes.last() {
            Ok(output) => {
                let rest = converted_of(inputs, outcomes.drop_last());
                match outcomes[i] {
                    Ok(o) => {
                        let k = choose|k: int| 0 <= k < rest.len() && rest[k] == (inputs[i], o);
                        assert(rest.push((inputs[last], output))[k] == (inputs[i], o));
                    },
                    Err(_) => {},
                }
            },
            Err(reason) => {
                let rest = failed_of(inputs, outcomes.drop_last());
                match outcomes[i] {
                    Err(r) => {
                        let k = choose|k: int| 0 <= k < rest.len() && rest[k] == (inputs[i], r);
                        assert(rest.push((inputs[last], reason))[k] == (inputs[i], r));
                    },
                    Ok(_) => {},
                }
            },
        }
    } else {
        match outcomes.last() {
            Ok(output) => {
                let c = converted_of(inputs, outcomes);
                assert(c[c.len() - 1] == (inputs[i], output));
            },
            Err(reason) => {
                let f = failed_of(inputs, outcomes);
                assert(f[f.len() - 1] == (inputs[i], reason));
            },
        }
    }
}

/// A batch in progress: the inputs, how many of them have been processed,
/// and the summary so far.
pub struct BatchRun {
    inputs: Vec<String>,
    next: usize,
    summary: ConversionSummary,
    outcomes: Ghost<Seq<Outcome>>,
}

impl BatchRun {
    /// The inputs of the batch.
    pub closed spec fn inputs(&self) -> Seq<Seq<char>> {
        self.inputs@.map_values(|s: String| s@)
    }

    /// The outcomes recorded so far, one per processed input.
    pub closed spec fn outcomes(&self) -> Seq<Outcome> {
        self.outcomes@
    }

    /// The number of inputs processed so far.
    pub open spec fn processed(&self) -> nat {
        self.outcomes().len()
    }

    /// All inputs have been processed.
    pub open spec fn done(&self) -> bool {
        self.processed() >= self.inputs().len()
    }

    /// The run is internally consistent.
    pub closed spec fn wf(&self) -> bool {
        &&& self.next == self.outcomes@.len()
        &&& self.next <= self.inputs@.len()
        &&& self.summary@ == summary_of(self.inputs(), self.outcomes@)
    }

    /// A consistent run has processed at most all its inputs.
    pub proof fn lemma_processed_bounded(&self)
        requires
            self.wf(),
        ensures
            self.processed() <= self.inputs().len(),
    {
    }

    /// Starts a batch over `inputs`, whose output goes to a directory.
    /// Fails with "output path must be a directory" when the output path
    /// is not one.
    pub fn start(inputs: Vec<String>, output_is_directory: bool) -> (run: Result<
        BatchRun,
        Error,
    >)
        ensures
            output_is_directory ==> (run matches Ok(r) && r.wf() && r.inputs() == inputs@.map_values(
                |s: String| s@,
            ) && r.outcomes() == Seq::<Outcome>::empty()),
            !output_is_directory ==> (run matches Err(Error::InvalidOptions(message)) && message@
                == "output path must be a directory"@),
    {
        if !output_is_directory {
            return Err(Error::InvalidOptions("output path must be a directory"));
        }
        let run = BatchRun {
            inputs,
            next: 0,
            summary: ConversionSummary { converted: Vec::new(), failed: Vec::new() },
            outcomes: Ghost(Seq::empty()),
        };
        assert(run.summary@.0 =~= seq![]);
        assert(run.summary@.1 =~= seq![]);
        Ok(run)
    }

    /// The number of inputs.
    pub fn total(&self) -> (total: usize)
        requires
            self.wf(),
        ensures
            total == self.inputs().len(),
    {
        self.inputs.len()
    }

    /// The number of inputs processed so far.
    pub fn processed_count(&self) -> (count: usize)
        requires
            self.wf(),
        ensures
            count == self.processed(),
    {
        self.next
    }

    /// The input to process next, or `None` when all are processed.
    pub fn next_input(&self) -> (input: Option<&String>)
        requires
            self.wf(),
        ensures
            self.done() ==> input is None,
            !self.done() ==> (input matches Some(s) && s@ == self.inputs()[self.processed() as int]),
    {
        if self.next < self.inputs.len() {
            Some(&self.inputs[self.next])
        } else {
            None
        }
    }

    /// Records what happened to the input returned by `next_input`:
    /// `Ok(output path)` or `Err(reason)`. Whatever the outcome, the batch
    /// moves on to the next input.
    pub fn record(&mut self, outcome: Result<String, String>) -> (progress: ConversionProgress)
        requires
            old(self).wf(),
            !old(self).done(),
        ensures
            final(self).wf(),
            final(self).inputs() == old(self).inputs(),
            final(self).processed() <= final(self).inputs().len(),
            final(self).outcomes() == old(self).outcomes().push(outcome_view(outcome)),
            progress.processed == old(self).processed() + 1,
            progress.total == old(self).inputs().len(),
            progress.input@ == old(self).inputs()[old(self).processed() as int],
            progress.succeeded == outcome is Ok,
    {
        let ghost before = self.outcomes@;
        let ghost ins = self.inputs();
        assert(ins.len() == self.inputs@.len());
        let n = self.next;
        let total = self.inputs.len();
        assert(n < total);
        let input = self.inputs[self.next].clone();
        let succeeded = outcome.is_ok();
        let ghost summary_before = self.summary@;
        match outcome {
            Ok(output) => {
                self.summary.converted.push(ConvertedFile { input: input.clone(), output });
            },
            Err(reason) => {
                self.summary.failed.push(ConversionFailure { input: input.clone(), reason });
            },
        }
        self.outcomes = Ghost(before.push(outcome_view(outcome)));
        self.next = n + 1;
        proof {
            let now = self.outcomes@;
            assert(now.drop_last() =~= before);
            assert(ins[before.len() as int] == input@);
            match outcome_view(outcome) {
                Ok(o) => {
                    assert(self.summary@.0 =~= summary_before.0.push((input@, o)));
                    assert(self.summary@.1 =~= summary_before.1);
                },
                Err(r) => {
                    assert(self.summary@.0 =~= summary_before.0);
                    assert(self.summary@.1 =~= summary_before.1.push((input@, r)));
                },
            }
        }
        ConversionProgress {
            processed: self.next,
            total,
            input,
            succeeded,
        }
    }

    /// The summary so far: the converted files and the failures among the
    /// processed inputs, in order.
    pub fn summary(&self) -> (summary: &ConversionSummary)
        requires
            self.wf(),
        ensures
            summary@ == summary_of(self.inputs(), self.outcomes()),
    {
        &self.summary
    }

    /// Ends the batch and hands back its summary.
    pub fn finish(self) -> (summary: ConversionSummary)
        requires
            self.wf(),
        ensures
            summary@ == summary_of(self.inputs(), self.outcomes()),
    {
        self.summary
    }
}

} // verus!
