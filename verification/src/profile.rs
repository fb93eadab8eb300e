//! Decisions of the profiling harness: which tokenizer to load, what the model is
//! fed, and in what order the runs come.
use vstd::prelude::*;

verus! {

/// Where the tokenizer comes from.
#[derive(Clone, Copy, Debug, PartialEq, Eq, Structural)]
pub enum TokenizerChoice {
    /// The path that was asked for.
    Given,
    /// The candidate with this index.
    Candidate { index: usize },
    /// No candidate exists.
    NotFound,
}

/// Picks the tokenizer: the path that was asked for, if there is one, else the first
/// candidate that exists. `exists` says of each candidate whether it exists.
pub fn choose_tokenizer(given: bool, exists: &[bool]) -> (choice: TokenizerChoice)
    ensures
        match choice {
            TokenizerChoice::Given => given,
            TokenizerChoice::Candidate { index } => {
                &&& !given
                &&& index < exists@.len()
                &&& exists@[index as int]
                &&& forall|earlier: int| 0 <= earlier < index ==> !#[trigger] exists@[earlier]
            },
            TokenizerChoice::NotFound => {
                &&& !given
                &&& forall|index: int| 0 <= index < exists@.len() ==> !#[trigger] exists@[index]
            },
        },
{
    if given {
        return TokenizerChoice::Given;
    }
    let mut index: usize = 0;
    while index < exists.len()
        invariant
            index <= exists@.len(),
            !given,
            forall|earlier: int| 0 <= earlier < index ==> !#[trigger] exists@[earlier],
        decreases exists@.len() - index,
    {
        if exists[index] {
            return TokenizerChoice::Candidate { index };
        }
        index = index + 1;
    }
    TokenizerChoice::NotFound
}

/// The token ids as the embedding table takes them: the same 32 bits, signed.
pub fn text_ids(token_ids: &[u32]) -> (ids: Vec<i32>)
    ensures
        ids@ == token_ids@.map_values(|id: u32| id as i32),
{
    let mut ids: Vec<i32> = Vec::new();
    let mut index: usize = 0;
    while index < token_ids.len()
        invariant
            index <= token_ids@.len(),
            ids@ == token_ids@.take(index as int).map_values(|id: u32| id as i32),
        decreases token_ids@.len() - index,
    {
        let id: i32 = #[verifier::truncate]
        (token_ids[index] as i32);
        ids.push(id);
        assert(token_ids@.take(index + 1) == token_ids@.take(index as int).push(
            token_ids@[index as int],
        ));
        assert(ids@ =~= token_ids@.take(index + 1).map_values(|id: u32| id as i32));
        index = index + 1;
    }
    assert(token_ids@.take(index as int) == token_ids@);
    ids
}

/// A part of the model's input.
#[derive(Clone, Copy, Debug, PartialEq, Eq, Structural)]
pub enum Segment {
    /// The token that begins a sequence.
    Bos,
    /// The token that begins audio.
    BeginAudio,
    /// The embedding of the voice.
    Voice,
    /// The token between the voice and the text.
    NextAudioText,
    /// The text to speak.
    Text,
    /// The token that follows the text.
    RepeatAudioText,
}

/// The parts of the model's input, in order: the voice framed as audio, the text, and
/// the token that begins the audio to generate.
pub fn input_segments() -> (segments: Vec<Segment>)
    ensures
        segments@ == seq![
            Segment::Bos,
            Segment::BeginAudio,
            Segment::Voice,
            Segment::NextAudioText,
            Segment::Text,
            Segment::RepeatAudioText,
            Segment::BeginAudio,
        ],
{
    vec![
        Segment::Bos,
        Segment::BeginAudio,
        Segment::Voice,
        Segment::NextAudioText,
        Segment::Text,
        Segment::RepeatAudioText,
        Segment::BeginAudio,
    ]
}

/// What the harness does next.
#[derive(Clone, Copy, Debug, PartialEq, Eq, Structural)]
pub enum Run {
    /// Warmup run `number` of `total`, counted from one.
    Warmup { number: usize, total: usize },
    /// The profiled run.
    Profiled,
    /// Nothing: all runs are done.
    Finished,
}

/// The run that follows `completed` runs: first the warmup runs, then one profiled run.
pub open spec fn run_after(warmup_runs: usize, completed: nat) -> Run {
    if completed < warmup_runs {
        Run::Warmup { number: (completed + 1) as usize, total: warmup_runs }
    } else if completed == warmup_runs {
        Run::Profiled
    } else {
        Run::Finished
    }
}

/// The progress of a profiling session.
#[derive(Clone, Copy, Debug)]
pub struct Schedule {
    warmup_runs: usize,
    warmups_done: usize,
    profiled: bool,
}

impl Schedule {
    /// The number of warmup runs of the session.
    pub closed spec fn warmups(self) -> usize {
        self.warmup_runs
    }

    /// The number of runs that were completed.
    pub closed spec fn completed_runs(self) -> nat {
        if self.profiled {
            (self.warmups_done + 1) as nat
        } else {
            self.warmups_done as nat
        }
    }

    #[verifier::type_invariant]
    spec fn wf(self) -> bool {
        &&& self.warmups_done <= self.warmup_runs
        &&& self.profiled ==> self.warmups_done == self.warmup_runs
    }

    /// A session of `warmup_runs` warmup runs and a profiled run.
    pub fn new(warmup_runs: usize) -> (schedule: Self)
        ensures
            schedule.warmups() == warmup_runs,
            schedule.completed_runs() == 0,
    {
        Schedule { warmup_runs, warmups_done: 0, profiled: false }
    }

    /// The run to do next.
    pub fn next(&self) -> (run: Run)
        ensures
            run == run_after(self.warmups(), self.completed_runs()),
    {
        proof {
            use_type_invariant(self);
        }
        if self.warmups_done < self.warmup_runs {
            Run::Warmup { number: self.warmups_done + 1, total: self.warmup_runs }
        } else if !self.profiled {
            Run::Profiled
        } else {
            Run::Finished
        }
    }

    /// The session after the next run succeeded. A finished session stays as it is.
    pub fn completed(self) -> (schedule: Self)
        ensures
            schedule.warmups() == self.warmups(),
            schedule.completed_runs() == (if run_after(self.warmups(), self.completed_runs())
                == Run::Finished {
                self.completed_runs()
            } else {
                self.completed_runs() + 1
            }),
    {
        proof {
            use_type_invariant(&self);
        }
        if self.warmups_done < self.warmup_runs {
            Schedule {
                warmup_runs: self.warmup_runs,
                warmups_done: self.warmups_done + 1,
                profiled: false,
            }
        } else {
            Schedule {
                warmup_runs: self.warmup_runs,
                warmups_done: self.warmups_done,
                profiled: true,
            }
        }
    }
}

/// A session has exactly one profiled run, and it comes when all warmup runs are done.
pub proof fn law_one_profiled_run(warmup_runs: usize, completed: nat)
    ensures
        run_after(warmup_runs, completed) == Run::Profiled <==> completed == warmup_runs,
        run_after(warmup_runs, completed) == Run::Finished <==> completed > warmup_runs,
{
}

/// The warmup runs of a session are numbered from one, in order, and each says how many
/// there are.
pub proof fn law_warmups_are_numbered(warmup_runs: usize, completed: nat)
    ensures
        completed < warmup_runs ==> run_after(warmup_runs, completed) == (Run::Warmup {
            number: (completed + 1) as usize,
            total: warmup_runs,
        }),
        completed >= warmup_runs ==> !(run_after(warmup_runs, completed) is Warmup),
{
}

} // verus!
