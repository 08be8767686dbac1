//! The course of an invocation: local lookup, remote lookup, build, store, upload.
//!
//! ```text
//! local hit           -> extracted, done
//! local miss
//!   remote disabled   -> build, store local
//!   remote enabled
//!     remote hit      -> store the blobs locally, extract, done
//!     partial hit     -> discard what was stored, and on as with a remote miss
//!     remote miss     -> build, store local, upload (unless read only)
//! any remote error    -> a warning, and on as with a remote miss
//! ```

use crate::client::{LookupError, Part};
use crate::error::{Error, IoError};
use crate::remote::RemoteError;
use vstd::pervasive::unreached;
use vstd::prelude::*;

verus! {

/// What is to be done next.
#[derive(Clone, Copy, Debug, PartialEq, Eq, Structural)]
pub enum Stage {
    /// Extract both outputs from the local cache.
    Lookup,
    /// Download an output into the local cache.
    Fetch(Part),
    /// Extract both outputs from the local cache, now that they were downloaded.
    Extract,
    /// Remove an output from the local cache, which it was downloaded to in vain: a lone
    /// entry, or a broken one, would fail the next lookup.
    Discard(Part),
    /// Run the builder.
    Build,
    /// Store an output in the local cache.
    Store(Part),
    /// Upload an output from the local cache.
    Upload(Part),
    /// Shrink the local cache.
    Clean,
}

/// What came of it.
#[derive(Debug)]
pub enum Answer {
    /// Whether both outputs were there.
    Looked(Result<bool, LookupError>),
    /// Whether the server had the output.
    Fetched(Result<bool, RemoteError>),
    Discarded(Result<(), Error>),
    /// Whether the builder succeeded, if it could be run.
    Built(Result<bool, IoError>),
    Stored(Result<(), Error>),
    Uploaded(Result<(), RemoteError>),
    Cleaned(Result<(), Error>),
}

/// Why an invocation failed.
#[derive(Debug)]
pub enum Failure {
    Lookup(LookupError),
    Build(IoError),
    Store(Error),
    Clean(Error),
}

/// What is worth a line of warning.
#[derive(Debug)]
pub enum Warning {
    /// The server could not be made use of.
    Remote(RemoteError),
    /// What was downloaded could not be extracted.
    Extract(LookupError),
    /// What was downloaded in vain could not be removed.
    Discard(Error),
}

/// An invocation at a stage.
#[derive(Clone, Copy, Debug)]
pub struct Flow {
    pub stage: Stage,
    /// Whether there is a server.
    pub remote: bool,
    /// Whether uploads are off.
    pub read_only: bool,
}

/// How an invocation goes on.
#[derive(Debug)]
pub enum FlowStep {
    Go { flow: Flow, warning: Option<Warning> },
    Done(Result<(), Failure>),
}

impl Stage {
    /// Whether an answer is one to this.
    pub open spec fn admits(self, answer: Answer) -> bool {
        match self {
            Stage::Lookup | Stage::Extract => answer is Looked,
            Stage::Fetch(_) => answer is Fetched,
            Stage::Discard(_) => answer is Discarded,
            Stage::Build => answer is Built,
            Stage::Store(_) => answer is Stored,
            Stage::Upload(_) => answer is Uploaded,
            Stage::Clean => answer is Cleaned,
        }
    }

    /// Whether this involves the server.
    pub open spec fn is_remote(self) -> bool {
        self is Fetch || self is Extract || self is Discard || self is Upload
    }
}

/// What follows when the server does not have an output: once it had the object, that is
/// discarded.
pub open spec fn without(part: Part) -> Stage {
    match part {
        Part::Object => Stage::Build,
        Part::Header => Stage::Discard(Part::Object),
    }
}

fn stage_without(part: Part) -> (stage: Stage)
    ensures
        stage == without(part),
{
    match part {
        Part::Object => Stage::Build,
        Part::Header => Stage::Discard(Part::Object),
    }
}

impl Flow {
    /// On to a stage.
    pub open spec fn to(self, stage: Stage) -> FlowStep {
        FlowStep::Go { flow: Flow { stage, ..self }, warning: None }
    }

    /// On to a stage, with a warning.
    pub open spec fn warn(self, stage: Stage, warning: Warning) -> FlowStep {
        FlowStep::Go { flow: Flow { stage, ..self }, warning: Some(warning) }
    }

    /// How the invocation goes on after an answer.
    pub open spec fn after(self, answer: Answer) -> FlowStep {
        match (self.stage, answer) {
            (Stage::Lookup, Answer::Looked(r)) => match r {
                Ok(true) => FlowStep::Done(Ok(())),
                Ok(false) => if self.remote {
                    self.to(Stage::Fetch(Part::Object))
                } else {
                    self.to(Stage::Build)
                },
                Err(e) => FlowStep::Done(Err(Failure::Lookup(e))),
            },
            (Stage::Fetch(part), Answer::Fetched(r)) => match r {
                Ok(true) => match part {
                    Part::Object => self.to(Stage::Fetch(Part::Header)),
                    Part::Header => self.to(Stage::Extract),
                },
                Ok(false) => self.to(without(part)),
                Err(e) => self.warn(without(part), Warning::Remote(e)),
            },
            (Stage::Extract, Answer::Looked(r)) => match r {
                Ok(true) => FlowStep::Done(Ok(())),
                Ok(false) => self.to(Stage::Discard(Part::Object)),
                Err(e) => self.warn(Stage::Discard(Part::Object), Warning::Extract(e)),
            },
            (Stage::Discard(part), Answer::Discarded(r)) => {
                let next = match part {
                    Part::Object => Stage::Discard(Part::Header),
                    Part::Header => Stage::Build,
                };
                match r {
                    Ok(_) => self.to(next),
                    Err(e) => self.warn(next, Warning::Discard(e)),
                }
            },
            (Stage::Build, Answer::Built(r)) => match r {
                Ok(true) => self.to(Stage::Store(Part::Object)),
                Ok(false) => self.to(Stage::Clean),
                Err(e) => FlowStep::Done(Err(Failure::Build(e))),
            },
            (Stage::Store(part), Answer::Stored(r)) => match r {
                Ok(_) => match part {
                    Part::Object => self.to(Stage::Store(Part::Header)),
                    Part::Header => if self.remote && !self.read_only {
                        self.to(Stage::Upload(Part::Object))
                    } else {
                        self.to(Stage::Clean)
                    },
                },
                Err(e) => FlowStep::Done(Err(Failure::Store(e))),
            },
            (Stage::Upload(part), Answer::Uploaded(r)) => match r {
                Ok(_) => match part {
                    Part::Object => self.to(Stage::Upload(Part::Header)),
                    Part::Header => self.to(Stage::Clean),
                },
                Err(e) => self.warn(Stage::Clean, Warning::Remote(e)),
            },
            (Stage::Clean, Answer::Cleaned(r)) => match r {
                Ok(_) => FlowStep::Done(Ok(())),
                Err(e) => FlowStep::Done(Err(Failure::Clean(e))),
            },
            _ => arbitrary(),
        }
    }

    /// Begins an invocation.
    pub fn start(remote: bool, read_only: bool) -> (flow: Flow)
        ensures
            flow == (Flow { stage: Stage::Lookup, remote, read_only }),
    {
        Flow { stage: Stage::Lookup, remote, read_only }
    }

    fn go(self, stage: Stage) -> (step: FlowStep)
        ensures
            step == self.to(stage),
    {
        FlowStep::Go {
            flow: Flow { stage, remote: self.remote, read_only: self.read_only },
            warning: None,
        }
    }

    fn go_warning(self, stage: Stage, warning: Warning) -> (step: FlowStep)
        ensures
            step == self.warn(stage, warning),
    {
        FlowStep::Go {
            flow: Flow { stage, remote: self.remote, read_only: self.read_only },
            warning: Some(warning),
        }
    }

    /// Goes on after an answer.
    pub fn resume(self, answer: Answer) -> (step: FlowStep)
        requires
            self.stage.admits(answer),
        ensures
            step == self.after(answer),
    {
        match (self.stage, answer) {
            (Stage::Lookup, Answer::Looked(r)) => match r {
                Ok(true) => FlowStep::Done(Ok(())),
                Ok(false) => if self.remote {
                    self.go(Stage::Fetch(Part::Object))
                } else {
                    self.go(Stage::Build)
                },
                Err(e) => FlowStep::Done(Err(Failure::Lookup(e))),
            },
            (Stage::Fetch(part), Answer::Fetched(r)) => match r {
                Ok(true) => match part {
                    Part::Object => self.go(Stage::Fetch(Part::Header)),
                    Part::Header => self.go(Stage::Extract),
                },
                Ok(false) => self.go(stage_without(part)),
                Err(e) => self.go_warning(stage_without(part), Warning::Remote(e)),
            },
            (Stage::Extract, Answer::Looked(r)) => match r {
                Ok(true) => FlowStep::Done(Ok(())),
                Ok(false) => self.go(Stage::Discard(Part::Object)),
                Err(e) => self.go_warning(Stage::Discard(Part::Object), Warning::Extract(e)),
            },
            (Stage::Discard(part), Answer::Discarded(r)) => {
                let next = match part {
                    Part::Object => Stage::Discard(Part::Header),
                    Part::Header => Stage::Build,
                };
                match r {
                    Ok(()) => self.go(next),
                    Err(e) => self.go_warning(next, Warning::Discard(e)),
                }
            },
            (Stage::Build, Answer::Built(r)) => match r {
                Ok(true) => self.go(Stage::Store(Part::Object)),
                Ok(false) => self.go(Stage::Clean),
                Err(e) => FlowStep::Done(Err(Failure::Build(e))),
            },
            (Stage::Store(part), Answer::Stored(r)) => match r {
                Ok(()) => match part {
                    Part::Object => self.go(Stage::Store(Part::Header)),
                    Part::Header => if self.remote && !self.read_only {
                        self.go(Stage::Upload(Part::Object))
                    } else {
                        self.go(Stage::Clean)
                    },
                },
                Err(e) => FlowStep::Done(Err(Failure::Store(e))),
            },
            (Stage::Upload(part), Answer::Uploaded(r)) => match r {
                Ok(()) => match part {
                    Part::Object => self.go(Stage::Upload(Part::Header)),
                    Part::Header => self.go(Stage::Clean),
                },
                Err(e) => self.go_warning(Stage::Clean, Warning::Remote(e)),
            },
            (Stage::Clean, Answer::Cleaned(r)) => match r {
                Ok(()) => FlowStep::Done(Ok(())),
                Err(e) => FlowStep::Done(Err(Failure::Clean(e))),
            },
            _ => unreached(),
        }
    }

    /// Bounds how many stages are still to come.
    pub open spec fn rank(self) -> nat {
        match self.stage {
            Stage::Lookup => 11,
            Stage::Fetch(Part::Object) => 10,
            Stage::Fetch(Part::Header) => 9,
            Stage::Extract => 8,
            Stage::Discard(Part::Object) => 7,
            Stage::Discard(Part::Header) => 6,
            Stage::Build => 5,
            Stage::Store(Part::Object) => 4,
            Stage::Store(Part::Header) => 3,
            Stage::Upload(Part::Object) => 2,
            Stage::Upload(Part::Header) => 1,
            Stage::Clean => 0,
        }
    }
}

/// The surroundings of an invocation: how each stage would be answered.
pub type Surroundings = spec_fn(Stage) -> Answer;

/// Whether each stage is answered by an answer to it.
pub open spec fn is_apt(answers: Surroundings) -> bool {
    forall|stage: Stage| stage.admits(#[trigger] answers(stage))
}

/// The whole of an invocation: the stages it goes through, and what it comes to.
pub open spec fn course(flow: Flow, answers: Surroundings) -> (Seq<Stage>, Result<(), Failure>)
    decreases flow.rank(),
{
    match flow.after(answers(flow.stage)) {
        FlowStep::Go { flow: next, .. } => if next.rank() < flow.rank() {
            let (stages, result) = course(next, answers);
            (seq![flow.stage] + stages, result)
        } else {
            arbitrary()
        },
        FlowStep::Done(result) => (seq![flow.stage], result),
    }
}

/// The stages that do not involve the server.
pub open spec fn local_stages(stages: Seq<Stage>) -> Seq<Stage>
    decreases stages.len(),
{
    if stages.len() == 0 {
        Seq::empty()
    } else if stages[0].is_remote() {
        local_stages(stages.drop_first())
    } else {
        seq![stages[0]] + local_stages(stages.drop_first())
    }
}

/// Whether the server had both outputs, and they could be extracted.
pub open spec fn is_remote_hit(answers: Surroundings) -> bool {
    &&& answers(Stage::Fetch(Part::Object)) == Answer::Fetched(Ok(true))
    &&& answers(Stage::Fetch(Part::Header)) == Answer::Fetched(Ok(true))
    &&& answers(Stage::Extract) == Answer::Looked(Ok(true))
}

broadcast proof fn lemma_local_stages_first(stage: Stage, rest: Seq<Stage>)
    ensures
        #[trigger] local_stages(seq![stage] + rest) == if stage.is_remote() {
            local_stages(rest)
        } else {
            seq![stage] + local_stages(rest)
        },
{
    assert((seq![stage] + rest).drop_first() =~= rest);
}

proof fn lemma_local_stages_one(stage: Stage)
    ensures
        local_stages(seq![stage]) == if stage.is_remote() {
            Seq::<Stage>::empty()
        } else {
            seq![stage]
        },
{
    reveal_with_fuel(local_stages, 2);
    assert(seq![stage].drop_first() =~= Seq::empty());
    assert(seq![stage] + Seq::<Stage>::empty() =~= seq![stage]);
}

/// Whether the outputs will be extracted once an invocation is at a stage: the server has
/// what is still to be downloaded.
pub open spec fn is_hit_from(stage: Stage, answers: Surroundings) -> bool {
    match stage {
        Stage::Fetch(Part::Object) => is_remote_hit(answers),
        Stage::Fetch(Part::Header) => answers(Stage::Fetch(Part::Header)) == Answer::Fetched(
            Ok(true),
        ) && answers(Stage::Extract) == Answer::Looked(Ok(true)),
        Stage::Extract => answers(Stage::Extract) == Answer::Looked(Ok(true)),
        _ => false,
    }
}

/// Where an invocation without a server is when one with a server is at a stage.
pub open spec fn local_stage(stage: Stage) -> Stage {
    match stage {
        Stage::Fetch(_) | Stage::Extract | Stage::Discard(_) => Stage::Build,
        Stage::Upload(_) => Stage::Clean,
        _ => stage,
    }
}

/// After the lookup, a server that does not have the outputs makes no difference to
/// anything else.
proof fn lemma_server_makes_no_difference(
    stage: Stage,
    read_only: bool,
    off: bool,
    answers: Surroundings,
)
    requires
        is_apt(answers),
        !(stage is Lookup),
        !is_hit_from(stage, answers),
    ensures
        ({
            let on = course(Flow { stage, remote: true, read_only }, answers);
            let without = course(
                Flow { stage: local_stage(stage), remote: false, read_only: off },
                answers,
            );
            on.1 == without.1 && local_stages(on.0) == without.0
        }),
    decreases (Flow { stage, remote: true, read_only }).rank(),
{
    broadcast use lemma_local_stages_first;

    lemma_local_stages_one(stage);
    let flow = Flow { stage, remote: true, read_only };
    assert(stage.admits(answers(stage)));
    match flow.after(answers(stage)) {
        FlowStep::Go { flow: next, .. } => {
            lemma_server_makes_no_difference(next.stage, read_only, off, answers);
        },
        FlowStep::Done(_) => {},
    }
}

proof fn lemma_hit_succeeds(stage: Stage, read_only: bool, answers: Surroundings)
    requires
        is_hit_from(stage, answers),
    ensures
        course(Flow { stage, remote: true, read_only }, answers).1 == Ok::<(), Failure>(()),
    decreases (Flow { stage, remote: true, read_only }).rank(),
{
    match stage {
        Stage::Fetch(Part::Object) => {
            lemma_hit_succeeds(Stage::Fetch(Part::Header), read_only, answers);
        },
        Stage::Fetch(Part::Header) => {
            lemma_hit_succeeds(Stage::Extract, read_only, answers);
        },
        _ => {},
    }
}

/// A cache server outage never fails a build: unless the server has both outputs, an
/// invocation with a server does, beside asking it, what it does without one, and comes
/// to the same. If the server has them, it succeeds.
pub proof fn law_remote_never_fails_a_build(answers: Surroundings, read_only: bool, off: bool)
    requires
        is_apt(answers),
    ensures
        ({
            let on = course(Flow { stage: Stage::Lookup, remote: true, read_only }, answers);
            let without = course(
                Flow { stage: Stage::Lookup, remote: false, read_only: off },
                answers,
            );
            if answers(Stage::Lookup) == Answer::Looked(Ok(false)) && is_remote_hit(answers) {
                on.1 == Ok::<(), Failure>(())
            } else {
                on.1 == without.1 && local_stages(on.0) == without.0
            }
        }),
{
    broadcast use lemma_local_stages_first;

    lemma_local_stages_one(Stage::Lookup);
    assert(Stage::Lookup.admits(answers(Stage::Lookup)));
    let object = Stage::Fetch(Part::Object);
    if is_hit_from(object, answers) {
        lemma_hit_succeeds(object, read_only, answers);
    } else {
        lemma_server_makes_no_difference(object, read_only, off, answers);
    }
}

/// A stage that is not the last comes before the rest of the course.
proof fn lemma_course_goes_on(flow: Flow, stage: Stage, answers: Surroundings)
    requires
        is_apt(answers),
        flow.after(answers(flow.stage)) matches FlowStep::Go { flow: next, .. } && next == (Flow {
            stage,
            ..flow
        }),
        (Flow { stage, ..flow }).rank() < flow.rank(),
    ensures
        ({
            let rest = course(Flow { stage, ..flow }, answers).0;
            &&& course(flow, answers).0 == seq![flow.stage] + rest
            &&& rest.len() > 0
            &&& rest[0] == stage
        }),
{
    assert(stage.admits(answers(stage)));
}

/// What was downloaded in vain does not stay: if the server had the object but the outputs
/// were not extracted, both are removed from the local cache before the build.
pub proof fn law_partial_hits_are_discarded(answers: Surroundings, read_only: bool)
    requires
        is_apt(answers),
        answers(Stage::Lookup) == Answer::Looked(Ok(false)),
        answers(Stage::Fetch(Part::Object)) == Answer::Fetched(Ok(true)),
        !is_remote_hit(answers),
    ensures
        ({
            let stages = course(
                Flow { stage: Stage::Lookup, remote: true, read_only },
                answers,
            ).0;
            exists|i: int|
                0 <= i && i + 2 < stages.len() && #[trigger] stages[i] == Stage::Discard(
                    Part::Object,
                ) && stages[i + 1] == Stage::Discard(Part::Header) && stages[i + 2] == Stage::Build
        }),
{
    let object = Stage::Fetch(Part::Object);
    let header = Stage::Fetch(Part::Header);
    let first = Stage::Discard(Part::Object);
    let second = Stage::Discard(Part::Header);
    let at = |stage: Stage| Flow { stage, remote: true, read_only };
    assert(header.admits(answers(header)));
    assert(Stage::Extract.admits(answers(Stage::Extract)));
    assert(first.admits(answers(first)));
    assert(second.admits(answers(second)));
    lemma_course_goes_on(at(Stage::Lookup), object, answers);
    lemma_course_goes_on(at(object), header, answers);
    lemma_course_goes_on(at(first), second, answers);
    lemma_course_goes_on(at(second), Stage::Build, answers);
    let stages = course(at(Stage::Lookup), answers).0;
    if answers(header) == Answer::Fetched(Ok(true)) {
        lemma_course_goes_on(at(header), Stage::Extract, answers);
        lemma_course_goes_on(at(Stage::Extract), first, answers);
        assert(stages[4] == first && stages[5] == second && stages[6] == Stage::Build);
    } else {
        lemma_course_goes_on(at(header), first, answers);
        assert(stages[3] == first && stages[4] == second && stages[5] == Stage::Build);
    }
}

/// A local hit ends the invocation at once: nothing is asked of the server and nothing is
/// built.
pub proof fn law_local_hit_is_all(answers: Surroundings, remote: bool, read_only: bool)
    requires
        answers(Stage::Lookup) == Answer::Looked(Ok(true)),
    ensures
        course(Flow { stage: Stage::Lookup, remote, read_only }, answers) == (
            seq![Stage::Lookup],
            Ok::<(), Failure>(()),
        ),
{
}

/// Nothing is uploaded where uploads are off or there is no server, and nothing is
/// downloaded where there is none.
pub proof fn law_uploads_are_asked_for(flow: Flow, answers: Surroundings, i: int)
    requires
        is_apt(answers),
        !flow.stage.is_remote() || (flow.remote && !(flow.stage is Upload)),
        !flow.remote || flow.read_only,
        0 <= i < course(flow, answers).0.len(),
    ensures
        !(course(flow, answers).0[i] is Upload),
        !flow.remote ==> !course(flow, answers).0[i].is_remote(),
    decreases flow.rank(),
{
    assert(flow.stage.admits(answers(flow.stage)));
    match flow.after(answers(flow.stage)) {
        FlowStep::Go { flow: next, .. } => {
            if i > 0 {
                law_uploads_are_asked_for(next, answers, i - 1);
            }
        },
        FlowStep::Done(_) => {},
    }
}

/// Whether an output was stored.
pub open spec fn is_stored(answer: Answer) -> bool {
    answer matches Answer::Stored(r) && r is Ok
}

/// Only what was built and stored is uploaded: a course with an upload in it built with
/// success and stored both outputs.
pub proof fn law_only_stored_outputs_are_uploaded(flow: Flow, answers: Surroundings, i: int)
    requires
        is_apt(answers),
        flow.stage is Lookup,
        0 <= i < course(flow, answers).0.len(),
        course(flow, answers).0[i] is Upload,
    ensures
        answers(Stage::Build) == Answer::Built(Ok(true)),
        is_stored(answers(Stage::Store(Part::Object))),
        is_stored(answers(Stage::Store(Part::Header))),
{
    lemma_upload_comes_last(flow, answers, i);
}

proof fn lemma_upload_comes_last(flow: Flow, answers: Surroundings, i: int)
    requires
        is_apt(answers),
        !(flow.stage is Upload),
        0 <= i < course(flow, answers).0.len(),
        course(flow, answers).0[i] is Upload,
    ensures
        !(flow.stage is Clean),
        flow.rank() >= 5 ==> answers(Stage::Build) == Answer::Built(Ok(true)),
        flow.rank() >= 4 ==> is_stored(answers(Stage::Store(Part::Object))),
        flow.rank() >= 3 ==> is_stored(answers(Stage::Store(Part::Header))),
    decreases flow.rank(),
{
    assert(flow.stage.admits(answers(flow.stage)));
    match flow.after(answers(flow.stage)) {
        FlowStep::Go { flow: next, .. } => {
            assert(course(flow, answers).0[i] == course(next, answers).0[i - 1]);
            if !(next.stage is Upload) {
                lemma_upload_comes_last(next, answers, i - 1);
            }
        },
        FlowStep::Done(_) => {},
    }
}

/// What the cleaning up at the end of an invocation comes to.
pub open spec fn cleaned(answers: Surroundings) -> Result<(), Failure> {
    match answers(Stage::Clean) {
        Answer::Cleaned(Err(e)) => Err(Failure::Clean(e)),
        _ => Ok(()),
    }
}

/// A course goes through a stage and then through what follows it.
proof fn lemma_course_through(flow: Flow, stage: Stage, answers: Surroundings)
    requires
        flow.after(answers(flow.stage)) matches FlowStep::Go { flow: next, .. } && next == (Flow {
            stage,
            ..flow
        }),
        (Flow { stage, ..flow }).rank() < flow.rank(),
    ensures
        course(flow, answers).0 == seq![flow.stage] + course(Flow { stage, ..flow }, answers).0,
        course(flow, answers).1 == course(Flow { stage, ..flow }, answers).1,
{
}

proof fn lemma_clean_is_last(flow: Flow, answers: Surroundings)
    requires
        is_apt(answers),
        flow.stage is Clean,
    ensures
        course(flow, answers) == (seq![Stage::Clean], cleaned(answers)),
{
    assert(Stage::Clean.admits(answers(Stage::Clean)));
}

proof fn lemma_built_is_stored(flow: Flow, answers: Surroundings)
    requires
        is_apt(answers),
        flow.stage is Build,
        answers(Stage::Build) == Answer::Built(Ok(true)),
        is_stored(answers(Stage::Store(Part::Object))),
        is_stored(answers(Stage::Store(Part::Header))),
    ensures
        ({
            let next = if flow.remote && !flow.read_only {
                Stage::Upload(Part::Object)
            } else {
                Stage::Clean
            };
            let rest = course(Flow { stage: next, ..flow }, answers);
            &&& course(flow, answers).0 == seq![
                Stage::Build,
                Stage::Store(Part::Object),
                Stage::Store(Part::Header),
            ] + rest.0
            &&& course(flow, answers).1 == rest.1
        }),
{
    let object = Flow { stage: Stage::Store(Part::Object), ..flow };
    let header = Flow { stage: Stage::Store(Part::Header), ..flow };
    let next = if flow.remote && !flow.read_only {
        Stage::Upload(Part::Object)
    } else {
        Stage::Clean
    };
    lemma_course_through(flow, Stage::Store(Part::Object), answers);
    lemma_course_through(object, Stage::Store(Part::Header), answers);
    lemma_course_through(header, next, answers);
    let rest = course(Flow { stage: next, ..flow }, answers).0;
    assert(course(flow, answers).0 =~= seq![
        Stage::Build,
        Stage::Store(Part::Object),
        Stage::Store(Part::Header),
    ] + rest);
}

/// What is in no cache is built, and both outputs are stored, so that the next invocation
/// finds them. The local cache is shrunk at the end.
pub proof fn law_miss_is_built_and_stored(answers: Surroundings, read_only: bool)
    requires
        is_apt(answers),
        answers(Stage::Lookup) == Answer::Looked(Ok(false)),
        answers(Stage::Build) == Answer::Built(Ok(true)),
        is_stored(answers(Stage::Store(Part::Object))),
        is_stored(answers(Stage::Store(Part::Header))),
    ensures
        course(Flow { stage: Stage::Lookup, remote: false, read_only }, answers) == (
            seq![
                Stage::Lookup,
                Stage::Build,
                Stage::Store(Part::Object),
                Stage::Store(Part::Header),
                Stage::Clean,
            ],
            cleaned(answers),
        ),
{
    let flow = Flow { stage: Stage::Lookup, remote: false, read_only };
    lemma_course_through(flow, Stage::Build, answers);
    lemma_built_is_stored(Flow { stage: Stage::Build, ..flow }, answers);
    lemma_clean_is_last(Flow { stage: Stage::Clean, ..flow }, answers);
    assert(course(flow, answers).0 =~= seq![
        Stage::Lookup,
        Stage::Build,
        Stage::Store(Part::Object),
        Stage::Store(Part::Header),
        Stage::Clean,
    ]);
}

/// Whether an output was uploaded.
pub open spec fn is_uploaded(answer: Answer) -> bool {
    answer matches Answer::Uploaded(r) && r is Ok
}

/// What the server does not have either is asked of it once, built, stored, and uploaded for
/// others, both outputs, unless uploads are off.
pub proof fn law_remote_miss_is_uploaded(answers: Surroundings, read_only: bool)
    requires
        is_apt(answers),
        answers(Stage::Lookup) == Answer::Looked(Ok(false)),
        answers(Stage::Fetch(Part::Object)) != Answer::Fetched(Ok(true)),
        answers(Stage::Build) == Answer::Built(Ok(true)),
        is_stored(answers(Stage::Store(Part::Object))),
        is_stored(answers(Stage::Store(Part::Header))),
        is_uploaded(answers(Stage::Upload(Part::Object))),
    ensures
        course(Flow { stage: Stage::Lookup, remote: true, read_only }, answers) == (
            seq![
                Stage::Lookup,
                Stage::Fetch(Part::Object),
                Stage::Build,
                Stage::Store(Part::Object),
                Stage::Store(Part::Header),
            ] + if read_only {
                seq![Stage::Clean]
            } else {
                seq![Stage::Upload(Part::Object), Stage::Upload(Part::Header), Stage::Clean]
            },
            cleaned(answers),
        ),
{
    let flow = Flow { stage: Stage::Lookup, remote: true, read_only };
    let object = Stage::Fetch(Part::Object);
    let header = Stage::Upload(Part::Header);
    assert(object.admits(answers(object)));
    assert(header.admits(answers(header)));
    lemma_course_through(flow, object, answers);
    lemma_course_through(Flow { stage: object, ..flow }, Stage::Build, answers);
    lemma_built_is_stored(Flow { stage: Stage::Build, ..flow }, answers);
    lemma_clean_is_last(Flow { stage: Stage::Clean, ..flow }, answers);
    if !read_only {
        lemma_course_through(
            Flow { stage: Stage::Upload(Part::Object), ..flow },
            header,
            answers,
        );
        lemma_course_through(Flow { stage: header, ..flow }, Stage::Clean, answers);
    }
    assert(course(flow, answers).0 =~= seq![
        Stage::Lookup,
        Stage::Fetch(Part::Object),
        Stage::Build,
        Stage::Store(Part::Object),
        Stage::Store(Part::Header),
    ] + if read_only {
        seq![Stage::Clean]
    } else {
        seq![Stage::Upload(Part::Object), Stage::Upload(Part::Header), Stage::Clean]
    });
}

/// What the server has is downloaded and extracted, both outputs, and nothing is built.
pub proof fn law_remote_hit_is_extracted(answers: Surroundings, read_only: bool)
    requires
        answers(Stage::Lookup) == Answer::Looked(Ok(false)),
        is_remote_hit(answers),
    ensures
        course(Flow { stage: Stage::Lookup, remote: true, read_only }, answers) == (
            seq![
                Stage::Lookup,
                Stage::Fetch(Part::Object),
                Stage::Fetch(Part::Header),
                Stage::Extract,
            ],
            Ok::<(), Failure>(()),
        ),
{
    let flow = Flow { stage: Stage::Lookup, remote: true, read_only };
    let object = Stage::Fetch(Part::Object);
    let header = Stage::Fetch(Part::Header);
    lemma_course_through(flow, object, answers);
    lemma_course_through(Flow { stage: object, ..flow }, header, answers);
    lemma_course_through(Flow { stage: header, ..flow }, Stage::Extract, answers);
    assert(course(Flow { stage: Stage::Extract, ..flow }, answers).0 == seq![Stage::Extract]);
    assert(course(flow, answers).0 =~= seq![
        Stage::Lookup,
        Stage::Fetch(Part::Object),
        Stage::Fetch(Part::Header),
        Stage::Extract,
    ]);
}

/// An upload that fails ends the uploads, but not the invocation.
pub proof fn law_failed_upload_ends_the_uploads(flow: Flow, part: Part, answers: Surroundings)
    requires
        is_apt(answers),
        flow.stage == Stage::Upload(part),
        !is_uploaded(answers(flow.stage)),
    ensures
        course(flow, answers) == (seq![flow.stage, Stage::Clean], cleaned(answers)),
{
    assert(flow.stage.admits(answers(flow.stage)));
    lemma_course_through(flow, Stage::Clean, answers);
    lemma_clean_is_last(Flow { stage: Stage::Clean, ..flow }, answers);
    assert(course(flow, answers).0 =~= seq![flow.stage, Stage::Clean]);
}

/// What a builder that failed left is not stored: the local cache is shrunk, and that is all.
pub proof fn law_failed_build_is_not_stored(flow: Flow, answers: Surroundings)
    requires
        is_apt(answers),
        flow.stage is Build,
        answers(Stage::Build) == Answer::Built(Ok(false)),
    ensures
        course(flow, answers) == (seq![Stage::Build, Stage::Clean], cleaned(answers)),
{
    lemma_course_through(flow, Stage::Clean, answers);
    lemma_clean_is_last(Flow { stage: Stage::Clean, ..flow }, answers);
    assert(course(flow, answers).0 =~= seq![Stage::Build, Stage::Clean]);
}

/// What goes wrong on this machine ends the invocation with that: a lookup, a builder that
/// could not be run, a store, the cleaning up.
pub proof fn law_local_failures_are_reported(
    flow: Flow,
    lookup: LookupError,
    io: IoError,
    e: Error,
)
    ensures
        flow.stage is Lookup ==> flow.after(Answer::Looked(Err(lookup))) == FlowStep::Done(
            Err(Failure::Lookup(lookup)),
        ),
        flow.stage is Build ==> flow.after(Answer::Built(Err(io))) == FlowStep::Done(
            Err(Failure::Build(io)),
        ),
        flow.stage is Store ==> flow.after(Answer::Stored(Err(e))) == FlowStep::Done(
            Err(Failure::Store(e)),
        ),
        flow.stage is Clean ==> flow.after(Answer::Cleaned(Err(e))) == FlowStep::Done(
            Err(Failure::Clean(e)),
        ),
{
}

/// What goes wrong with the server, or with what came from it, is worth a warning that says
/// what it was. The invocation goes on, and nothing else is worth one.
pub proof fn law_remote_failures_are_warned_of(flow: Flow, answer: Answer)
    requires
        flow.stage.admits(answer),
    ensures
        flow.after(answer) matches FlowStep::Go { flow: next, warning } ==> {
            &&& next.remote == flow.remote && next.read_only == flow.read_only
            &&& match answer {
                Answer::Fetched(Err(e)) => warning == Some(Warning::Remote(e)),
                Answer::Uploaded(Err(e)) => warning == Some(Warning::Remote(e)),
                Answer::Looked(Err(e)) => warning == Some(Warning::Extract(e)),
                Answer::Discarded(Err(e)) => warning == Some(Warning::Discard(e)),
                _ => warning is None,
            }
        },
        flow.stage.is_remote() && flow.after(answer) is Done ==> flow.stage is Extract && answer
            == Answer::Looked(Ok(true)),
{
}

} // verus!
