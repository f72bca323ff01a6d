//! Background-audio setup as a sequence of steps. The caller performs each
//! step against the platform's shared audio session and reports whether it
//! worked; setup never fails toward its own caller, it only ends early.

use vstd::prelude::*;

verus! {

/// Why audio setup ended without configuring the session.
#[derive(Debug, Clone, Copy, PartialEq, Eq)]
pub enum SessionIssue {
    /// The shared audio session could not be obtained.
    SessionUnavailable,
    /// The playback category name could not be built.
    CategoryUnavailable,
}

/// The next thing to do while setting up the audio session.
#[derive(Debug, Clone, Copy, PartialEq, Eq)]
pub enum AudioStep {
    /// Obtain the shared audio session.
    AcquireSession,
    /// Build the name of the playback category.
    BuildCategory,
    /// Set the session's category to playback.
    SetCategory,
    /// Activate the session.
    Activate,
    /// Setup is over and the session was configured.
    Configured,
    /// Setup is over without a configured session; to be logged only.
    Abandoned(SessionIssue),
}

/// Setup is over.
pub open spec fn is_finished(step: AudioStep) -> bool {
    step is Configured || step is Abandoned
}

/// The step after `step`, given whether it worked. The results of setting the
/// category and of activating are not acted upon.
pub open spec fn following(step: AudioStep, succeeded: bool) -> AudioStep {
    match step {
        AudioStep::AcquireSession => if succeeded {
            AudioStep::BuildCategory
        } else {
            AudioStep::Abandoned(SessionIssue::SessionUnavailable)
        },
        AudioStep::BuildCategory => if succeeded {
            AudioStep::SetCategory
        } else {
            AudioStep::Abandoned(SessionIssue::CategoryUnavailable)
        },
        AudioStep::SetCategory => AudioStep::Activate,
        AudioStep::Activate => AudioStep::Configured,
        AudioStep::Configured => AudioStep::Configured,
        AudioStep::Abandoned(i) => AudioStep::Abandoned(i),
    }
}

/// Where setup stands after the steps have reported `outcomes`, in order.
pub open spec fn run_steps(start: AudioStep, outcomes: Seq<bool>) -> AudioStep
    decreases outcomes.len(),
{
    if outcomes.len() == 0 {
        start
    } else {
        run_steps(following(start, outcomes[0]), outcomes.drop_first())
    }
}

/// The first step of setup.
pub fn first_audio_step() -> (r: AudioStep)
    ensures
        r == AudioStep::AcquireSession,
{
    AudioStep::AcquireSession
}

/// The step after `step`, given whether it worked.
pub fn next_audio_step(step: AudioStep, succeeded: bool) -> (r: AudioStep)
    ensures
        r == following(step, succeeded),
{
    match step {
        AudioStep::AcquireSession => if succeeded {
            AudioStep::BuildCategory
        } else {
            AudioStep::Abandoned(SessionIssue::SessionUnavailable)
        },
        AudioStep::BuildCategory => if succeeded {
            AudioStep::SetCategory
        } else {
            AudioStep::Abandoned(SessionIssue::CategoryUnavailable)
        },
        AudioStep::SetCategory => AudioStep::Activate,
        AudioStep::Activate => AudioStep::Configured,
        AudioStep::Configured => AudioStep::Configured,
        AudioStep::Abandoned(i) => AudioStep::Abandoned(i),
    }
}

/// Whether setup is over.
pub fn audio_setup_finished(step: AudioStep) -> (r: bool)
    ensures
        r == is_finished(step),
{
    match step {
        AudioStep::Configured | AudioStep::Abandoned(_) => true,
        _ => false,
    }
}

/// A finished setup stays finished, whatever is reported after it.
pub proof fn lemma_finished_is_final(step: AudioStep, outcomes: Seq<bool>)
    requires
        is_finished(step),
    ensures
        run_steps(step, outcomes) == step,
    decreases outcomes.len(),
{
    if outcomes.len() > 0 {
        lemma_finished_is_final(following(step, outcomes[0]), outcomes.drop_first());
    }
}

/// Setup ends after at most four reports, whatever they say; it is
/// configured exactly when obtaining the session and building the category
/// both worked.
pub proof fn lemma_setup_always_ends(outcomes: Seq<bool>)
    requires
        outcomes.len() >= 4,
    ensures
        is_finished(run_steps(AudioStep::AcquireSession, outcomes)),
        run_steps(AudioStep::AcquireSession, outcomes) == AudioStep::Configured <==> (
        outcomes[0] && outcomes[1]),
{
    let o1 = outcomes.drop_first();
    let o2 = o1.drop_first();
    let o3 = o2.drop_first();
    let o4 = o3.drop_first();
    let s1 = following(AudioStep::AcquireSession, outcomes[0]);
    let s2 = following(s1, o1[0]);
    let s3 = following(s2, o2[0]);
    let s4 = following(s3, o3[0]);
    assert(run_steps(AudioStep::AcquireSession, outcomes) == run_steps(s1, o1));
    assert(run_steps(s1, o1) == run_steps(s2, o2));
    assert(run_steps(s2, o2) == run_steps(s3, o3));
    assert(run_steps(s3, o3) == run_steps(s4, o4));
    lemma_finished_is_final(s4, o4);
}

} // verus!
