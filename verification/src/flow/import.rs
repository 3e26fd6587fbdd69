//! Trying the pairing records that other tools keep on this host.
use vstd::prelude::*;
use crate::error::Error;

verus! {

/// What to do next with the records to try, counted from the first.
#[derive(Debug, Clone, Copy, PartialEq, Eq, Structural)]
pub enum ImportStep {
    /// Connect to the device for this record.
    Connect(usize),
    /// Check this record against the device on that connection.
    Verify(usize),
    /// Save this record, which holds.
    Save(usize),
    /// Nothing: this record was imported.
    Imported(usize),
    /// Nothing: no record holds.
    Exhausted,
    /// Nothing: a record that holds could not be saved.
    Failed,
}

/// What came of a step.
#[derive(Debug)]
pub enum ImportEvent {
    Connected(bool),
    Verified(bool),
    Saved(Result<(), Error>),
}

/// The step that begins with a record, where there is one.
pub open spec fn import_from(index: int, count: int) -> ImportStep {
    if index < count {
        ImportStep::Connect(index as usize)
    } else {
        ImportStep::Exhausted
    }
}

/// The step after an event. A record that cannot be tried or does not hold is
/// passed over; an event that belongs to another step changes nothing.
pub open spec fn next_import_step(step: ImportStep, event: ImportEvent, count: int) -> ImportStep {
    match (step, event) {
        (ImportStep::Connect(i), ImportEvent::Connected(done)) => if done {
            ImportStep::Verify(i)
        } else {
            import_from(i + 1, count)
        },
        (ImportStep::Verify(i), ImportEvent::Verified(holds)) => if holds {
            ImportStep::Save(i)
        } else {
            import_from(i + 1, count)
        },
        (ImportStep::Save(i), ImportEvent::Saved(done)) => if done is Ok {
            ImportStep::Imported(i)
        } else {
            ImportStep::Failed
        },
        _ => step,
    }
}

/// The state of an import.
#[derive(Debug, Clone, Copy, PartialEq, Eq, Structural)]
pub struct ImportFlow {
    pub count: usize,
    pub step: ImportStep,
}

fn import_step_from(index: usize, count: usize) -> (r: ImportStep)
    ensures
        r == import_from(index as int, count as int),
{
    if index < count {
        ImportStep::Connect(index)
    } else {
        ImportStep::Exhausted
    }
}

impl ImportFlow {
    /// Whether the record at hand is one of those to try.
    pub open spec fn wf(self) -> bool {
        match self.step {
            ImportStep::Connect(i) => i < self.count,
            ImportStep::Verify(i) => i < self.count,
            ImportStep::Save(i) => i < self.count,
            ImportStep::Imported(i) => i < self.count,
            _ => true,
        }
    }

    /// Begins with the first record, where the device has an address to try it at.
    pub fn start(has_address: bool, count: usize) -> (r: ImportFlow)
        ensures
            r.wf(),
            r.count == count,
            r.step == (if has_address {
                import_from(0, count as int)
            } else {
                ImportStep::Exhausted
            }),
    {
        if has_address {
            ImportFlow { count, step: import_step_from(0, count) }
        } else {
            ImportFlow { count, step: ImportStep::Exhausted }
        }
    }

    /// Takes in what came of a step. The error that ends the import, if any, is the
    /// one that saving came to.
    pub fn advance(&mut self, event: ImportEvent) -> (r: Result<(), Error>)
        requires
            old(self).wf(),
        ensures
            final(self).wf(),
            final(self).count == old(self).count,
            final(self).step == next_import_step(old(self).step, event, old(self).count as int),
            match (old(self).step, event) {
                (ImportStep::Save(_), ImportEvent::Saved(Err(error))) => r == Result::<
                    (),
                    Error,
                >::Err(error),
                _ => r is Ok,
            },
    {
        match (self.step, event) {
            (ImportStep::Connect(i), ImportEvent::Connected(done)) => {
                self.step = if done {
                    ImportStep::Verify(i)
                } else {
                    import_step_from(i + 1, self.count)
                };
                Ok(())
            },
            (ImportStep::Verify(i), ImportEvent::Verified(holds)) => {
                self.step = if holds {
                    ImportStep::Save(i)
                } else {
                    import_step_from(i + 1, self.count)
                };
                Ok(())
            },
            (ImportStep::Save(i), ImportEvent::Saved(done)) => match done {
                Ok(_) => {
                    self.step = ImportStep::Imported(i);
                    Ok(())
                },
                Err(error) => {
                    self.step = ImportStep::Failed;
                    Err(error)
                },
            },
            _ => Ok(()),
        }
    }
}

// ---------------------------------------------------------------- laws

/// What a device would answer to a record.
pub struct RecordAnswer {
    pub connects: bool,
    pub holds: bool,
}

/// Where an import comes to with these answers before anything is saved.
pub open spec fn settled(step: ImportStep, answers: Seq<RecordAnswer>) -> ImportStep
    decreases
            match step {
                ImportStep::Connect(i) => 2 * (answers.len() - i) + 1,
                ImportStep::Verify(i) => 2 * (answers.len() - i),
                _ => 0,
            },
{
    match step {
        ImportStep::Connect(i) => if i < answers.len() <= usize::MAX {
            settled(
                next_import_step(
                    step,
                    ImportEvent::Connected(answers[i as int].connects),
                    answers.len() as int,
                ),
                answers,
            )
        } else {
            step
        },
        ImportStep::Verify(i) => if i < answers.len() <= usize::MAX {
            settled(
                next_import_step(
                    step,
                    ImportEvent::Verified(answers[i as int].holds),
                    answers.len() as int,
                ),
                answers,
            )
        } else {
            step
        },
        _ => step,
    }
}

/// Whether a record can be tried and holds.
pub open spec fn usable(answer: RecordAnswer) -> bool {
    answer.connects && answer.holds
}

/// An import that goes on from a record comes to save the first usable record from
/// there on, and to nothing where there is none: it ends, no record that does not
/// hold is saved, and no usable record is passed over.
pub proof fn lemma_import_takes_first_usable(answers: Seq<RecordAnswer>, from: int)
    requires
        0 <= from <= answers.len() <= usize::MAX,
    ensures
        match settled(import_from(from, answers.len() as int), answers) {
            ImportStep::Save(i) => from <= i < answers.len() && usable(answers[i as int])
                && forall|j: int| from <= j < i ==> !usable(#[trigger] answers[j]),
            ImportStep::Exhausted => forall|j: int|
                from <= j < answers.len() ==> !usable(#[trigger] answers[j]),
            _ => false,
        },
    decreases answers.len() - from,
{
    if from < answers.len() {
        lemma_import_takes_first_usable(answers, from + 1);
        let answer = answers[from];
        let begun = import_from(from, answers.len() as int);
        let checked = next_import_step(
            begun,
            ImportEvent::Connected(answer.connects),
            answers.len() as int,
        );
        assert(settled(begun, answers) == settled(checked, answers));
        if answer.connects {
            assert(settled(checked, answers) == settled(
                next_import_step(
                    checked,
                    ImportEvent::Verified(answer.holds),
                    answers.len() as int,
                ),
                answers,
            ));
        }
    }
}

/// A record that holds is saved as the one that was checked; the import is done once
/// it has been, and fails where it cannot be.
pub proof fn lemma_import_saves_what_holds(i: usize, count: int, error: Error)
    requires
        i < count,
    ensures
        ({
            let saving = next_import_step(
                ImportStep::Verify(i),
                ImportEvent::Verified(true),
                count,
            );
            &&& saving == ImportStep::Save(i)
            &&& next_import_step(saving, ImportEvent::Saved(Ok(())), count)
                == ImportStep::Imported(i)
            &&& next_import_step(saving, ImportEvent::Saved(Err(error)), count) is Failed
        }),
{
}

/// A record that cannot be tried and one that does not hold are passed over alike,
/// for the next one where there is one.
pub proof fn lemma_import_passes_over(i: usize, count: int)
    requires
        i < count <= usize::MAX,
    ensures
        ({
            let unreached = next_import_step(
                ImportStep::Connect(i),
                ImportEvent::Connected(false),
                count,
            );
            let refused = next_import_step(
                ImportStep::Verify(i),
                ImportEvent::Verified(false),
                count,
            );
            &&& unreached == refused
            &&& i + 1 < count ==> unreached == ImportStep::Connect((i + 1) as usize)
            &&& i + 1 == count ==> unreached is Exhausted
            &&& next_import_step(ImportStep::Connect(i), ImportEvent::Connected(true), count)
                == ImportStep::Verify(i)
        }),
{
}

/// Nothing comes after the end of an import.
pub proof fn lemma_import_stays_ended(step: ImportStep, event: ImportEvent, count: int)
    requires
        step is Imported || step is Exhausted || step is Failed,
    ensures
        next_import_step(step, event, count) == step,
{
}

} // verus!
