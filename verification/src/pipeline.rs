//! One command run as a state machine. The host hands each step an event
//! (what the idempotency store, the transaction log or the command's
//! handler answered) and performs the action it gets back; the order of the
//! steps is decided here: attribute the request to the authority, admit it,
//! look up a kept outcome, open a transaction, run the handler, keep the
//! outcome, close the transaction, and hold the answer to the error
//! contract.
use vstd::prelude::*;
use crate::contracts::{CommandRequest, CommandResponse, Producer};
use crate::execution::{
    admission_refusal, admit_command, attribute_request, closed_as, closed_transaction,
    command_outcome, contended_as, contended_outcome, contract_checked, enforce_error_contract,
    enforced_as, envelope_json, failure, fingerprint_of, idempotency_key, intended_summary,
    is_failure, is_transaction_outcome, outcome_as, persist_step, persisted_as,
    replay_outcome, replayed_as, request_fingerprint, resolved_index, transaction_fingerprint,
    transaction_outcome, transaction_version, PersistStep, StoredOutcome, TransactionOutcome,
};
use crate::json::Json;
use crate::policy::ExecutionAuthority;
use crate::registry::{CommandRegistry, CommandSpec};
use crate::service::{is_transactional, transactional_effect, CoreCommandError};

verus! {

/// What a command run waits for.
#[derive(PartialEq, Eq, Structural, Clone, Copy, Debug)]
pub enum RunPhase {
    /// Nothing has happened yet.
    Received,
    /// The outcome kept under the request's idempotency key.
    AwaitLookup,
    /// The opening of the command's transaction.
    AwaitBegin,
    /// The command's handler.
    AwaitHandler,
    /// Keeping the outcome under the idempotency key.
    AwaitKeep,
    /// The outcome another request kept under the key first.
    AwaitRelookup,
    /// The closing of the command's transaction.
    AwaitClose,
    /// The run has answered.
    Finished,
}

/// A command run: where it stands, the request (attributed once received),
/// the transaction it opened, and the response it holds while the outcome
/// is kept or the transaction closed.
pub struct CommandRun {
    pub phase: RunPhase,
    pub request: CommandRequest,
    pub transaction: Option<String>,
    pub response: Option<CommandResponse>,
}

/// What the host reports back to a run.
pub enum StoreEvent {
    /// The run is to begin.
    Start,
    /// What the idempotency store holds under the key.
    Looked(StoredOutcome),
    /// The transaction was opened (its id), or could not be.
    Began(Result<String, CoreCommandError>),
    /// What the command's handler returned.
    Handled(Result<Json, CoreCommandError>),
    /// Whether the outcome (the run's `response`) was kept.
    Kept(Result<(), CoreCommandError>),
    /// Whether the transaction's close was recorded.
    Closed(Result<(), CoreCommandError>),
}

/// What the host is to do next.
pub enum RunAction {
    /// Read the outcome kept under `key`.
    LookUp { key: String },
    /// Open the command's transaction with this fingerprint and summary,
    /// under the command's effect class and permission.
    BeginTransaction {
        request_sha256: String,
        intended_summary: String,
        effect_class: String,
        permission: String,
    },
    /// Run the command's handler at this version.
    Dispatch { command_version: u32 },
    /// Keep the run's `response` under `key`, for this fingerprint.
    Keep { key: String, request_sha256: String },
    /// Close the transaction.
    CloseTransaction { transaction_id: String, outcome: TransactionOutcome },
    /// Answer with `response`; usage is recorded under the effect class and
    /// permission.
    Answer { response: CommandResponse, effect_class: String, permission: String },
}

/// The contract an admitted request resolves to.
pub open spec fn admitted_spec(registry: CommandRegistry, request: CommandRequest) -> CommandSpec {
    registry.commands@[resolved_index(registry, request)]
}

/// The idempotency key an outcome is kept under: for commands that are not
/// `safe` and that carry one.
pub open spec fn key_of(spec: CommandSpec, request: CommandRequest) -> Option<Seq<char>> {
    if spec.idempotency@ != "safe"@ && request.idempotency_key is Some {
        Some(request.idempotency_key->0@)
    } else {
        None
    }
}

/// `after` is `before` with its context taken from the authority.
pub open spec fn attributed(before: CommandRequest, authority: ExecutionAuthority, after: CommandRequest) -> bool {
    &&& after.request_id == before.request_id
    &&& after.command == before.command
    &&& after.command_version == before.command_version
    &&& after.arguments == before.arguments
    &&& after.idempotency_key == before.idempotency_key
    &&& after.context.actor_id == Some(authority.actor_id)
    &&& after.context.client_id == Some(authority.client_id)
    &&& after.context.delegator_id == authority.delegator_id
}

/// Whether `event` is what a run in `phase` waits for.
pub open spec fn event_fits(phase: RunPhase, event: StoreEvent) -> bool {
    match phase {
        RunPhase::Received => event is Start,
        RunPhase::AwaitLookup => event is Looked,
        RunPhase::AwaitRelookup => event is Looked,
        RunPhase::AwaitBegin => event is Began,
        RunPhase::AwaitHandler => event is Handled,
        RunPhase::AwaitKeep => event is Kept,
        RunPhase::AwaitClose => event is Closed,
        RunPhase::Finished => false,
    }
}

/// What holds of a run between steps: a run past its start has an admitted
/// request; one keeping its outcome or closing its transaction holds its
/// response; one keeping or looking up again has a key; one closing has a
/// transaction.
pub open spec fn run_wf(registry: CommandRegistry, authority: ExecutionAuthority, run: CommandRun) -> bool {
    let waiting = run.phase != RunPhase::Received && run.phase != RunPhase::Finished;
    let spec = admitted_spec(registry, run.request);
    &&& waiting ==> admission_refusal(registry, run.request, authority) is None
    &&& (run.phase == RunPhase::AwaitKeep || run.phase == RunPhase::AwaitClose) ==> run.response is Some
    &&& (run.phase == RunPhase::AwaitKeep || run.phase == RunPhase::AwaitRelookup) ==> key_of(
        spec,
        run.request,
    ) is Some
    &&& run.phase == RunPhase::AwaitClose ==> run.transaction is Some
}

/// The step into the command proper: open a transaction for a transactional
/// effect, else run the handler.
pub open spec fn opening(spec: CommandSpec, request: CommandRequest, next: CommandRun, action: RunAction) -> bool {
    &&& next.request == request
    &&& next.transaction is None
    &&& next.response is None
    &&& if is_transactional(spec.effect_class@) {
        &&& next.phase == RunPhase::AwaitBegin
        &&& action matches RunAction::BeginTransaction {
            request_sha256,
            intended_summary,
            effect_class,
            permission,
        }
        &&& request_sha256@ == fingerprint_of(request, transaction_version(request))
        &&& intended_summary@ == request.command@ + " requested through validated command contract"@
        &&& effect_class@ == spec.effect_class@
        &&& permission@ == spec.permission@
    } else {
        &&& next.phase == RunPhase::AwaitHandler
        &&& action == (RunAction::Dispatch { command_version: spec.version })
    }
}

/// The last step: `response` held to the error contract is the answer.
pub open spec fn finishing(
    registry: CommandRegistry,
    spec: CommandSpec,
    request: CommandRequest,
    producer: Producer,
    response: CommandResponse,
    next: CommandRun,
    action: RunAction,
) -> bool {
    &&& next.request == request
    &&& next.phase == RunPhase::Finished
    &&& action matches RunAction::Answer { response: r, effect_class, permission }
    &&& enforced_as(registry, spec, request, producer, response, r)
    &&& effect_class@ == spec.effect_class@
    &&& permission@ == spec.permission@
}

/// The step once the outcome is settled: close the transaction when one was
/// opened, else answer.
pub open spec fn settling(
    registry: CommandRegistry,
    spec: CommandSpec,
    request: CommandRequest,
    producer: Producer,
    transaction: Option<String>,
    response: CommandResponse,
    next: CommandRun,
    action: RunAction,
) -> bool {
    match transaction {
        Some(id) => {
            &&& next.request == request
            &&& next.phase == RunPhase::AwaitClose
            &&& next.transaction == Some(id)
            &&& next.response == Some(response)
            &&& action matches RunAction::CloseTransaction { transaction_id, outcome }
            &&& transaction_id == id
            &&& is_transaction_outcome(request, response, outcome)
        },
        None => finishing(registry, spec, request, producer, response, next, action),
    }
}

/// One step of a command run: `next` and `action` follow from `run` and
/// `event`.
pub open spec fn command_step_spec(
    registry: CommandRegistry,
    authority: ExecutionAuthority,
    producer: Producer,
    run: CommandRun,
    event: StoreEvent,
    next: CommandRun,
    action: RunAction,
) -> bool {
    let request = next.request;
    let spec = admitted_spec(registry, request);
    &&& if run.phase == RunPhase::Received {
        attributed(run.request, authority, request)
    } else {
        request == run.request
    }
    &&& match event {
        StoreEvent::Start => match admission_refusal(registry, request, authority) {
            Some(refusal) => {
                &&& next.phase == RunPhase::Finished
                &&& action matches RunAction::Answer { response, effect_class, permission }
                &&& is_failure(response, request, refusal.0, producer, refusal.1, refusal.2)
                &&& effect_class@ == refusal.3
                &&& permission@ == refusal.4
            },
            None => match key_of(spec, request) {
                Some(k) => {
                    &&& next.phase == RunPhase::AwaitLookup
                    &&& next.transaction is None
                    &&& next.response is None
                    &&& action matches RunAction::LookUp { key }
                    &&& key@ == k
                },
                None => opening(spec, request, next, action),
            },
        },
        StoreEvent::Looked(stored) => if run.phase == RunPhase::AwaitLookup {
            match action {
                RunAction::Answer { response, effect_class, permission } => {
                    &&& next.phase == RunPhase::Finished
                    &&& replayed_as(request, spec.version, producer, stored, Some(response))
                    &&& effect_class@ == spec.effect_class@
                    &&& permission@ == spec.permission@
                },
                _ => {
                    &&& replayed_as(request, spec.version, producer, stored, None)
                    &&& opening(spec, request, next, action)
                },
            }
        } else {
            exists|again: Option<CommandResponse>, x: CommandResponse|
                #![trigger contended_as(request, spec.version, producer, again, x)]
                replayed_as(request, spec.version, producer, stored, again) && contended_as(
                    request,
                    spec.version,
                    producer,
                    again,
                    x,
                ) && settling(registry, spec, request, producer, run.transaction, x, next, action)
        },
        StoreEvent::Began(begun) => match begun {
            Ok(id) => {
                &&& next.phase == RunPhase::AwaitHandler
                &&& next.transaction == Some(id)
                &&& next.response is None
                &&& action == (RunAction::Dispatch { command_version: spec.version })
            },
            Err(e) => {
                &&& next.phase == RunPhase::Finished
                &&& action matches RunAction::Answer { response, effect_class, permission }
                &&& is_failure(response, request, spec.version, producer, e.code@, e.message@)
                &&& effect_class@ == spec.effect_class@
                &&& permission@ == spec.permission@
            },
        },
        StoreEvent::Handled(business) => exists|x: CommandResponse|
            #![trigger outcome_as(request, spec, producer, business, x)]
            outcome_as(request, spec, producer, business, x) && if x.ok && key_of(spec, request) is Some {
                &&& next.phase == RunPhase::AwaitKeep
                &&& next.transaction == run.transaction
                &&& next.response == Some(x)
                &&& action matches RunAction::Keep { key, request_sha256 }
                &&& key@ == key_of(spec, request)->0
                &&& request_sha256@ == fingerprint_of(request, spec.version)
            } else {
                settling(registry, spec, request, producer, run.transaction, x, next, action)
            },
        StoreEvent::Kept(kept) => exists|step: PersistStep|
            #![trigger persisted_as(request, spec.version, producer, run.response->0, kept, step)]
            persisted_as(request, spec.version, producer, run.response->0, kept, step) && match step {
                PersistStep::Answer(x) => settling(
                    registry,
                    spec,
                    request,
                    producer,
                    run.transaction,
                    x,
                    next,
                    action,
                ),
                PersistStep::Contended => {
                    &&& next.phase == RunPhase::AwaitRelookup
                    &&& next.transaction == run.transaction
                    &&& next.response is None
                    &&& action matches RunAction::LookUp { key }
                    &&& key@ == key_of(spec, request)->0
                },
            },
        StoreEvent::Closed(recorded) => exists|x: CommandResponse|
            #![trigger closed_as(request, producer, run.response->0, recorded, x)]
            closed_as(request, producer, run.response->0, recorded, x) && finishing(
                registry,
                spec,
                request,
                producer,
                x,
                next,
                action,
            ),
    }
}

impl CommandRun {
    /// A run of `request`, not yet started.
    pub fn new(request: CommandRequest) -> (r: Self)
        ensures
            r.phase == RunPhase::Received,
            r.request == request,
            r.transaction is None,
            r.response is None,
    {
        CommandRun { phase: RunPhase::Received, request, transaction: None, response: None }
    }
}

fn admitted<'a>(
    registry: &'a CommandRegistry,
    request: &CommandRequest,
    authority: &ExecutionAuthority,
) -> (r: &'a CommandSpec)
    requires
        admission_refusal(*registry, *request, *authority) is None,
    ensures
        *r == admitted_spec(*registry, *request),
{
    match admit_command(registry, request, authority) {
        Ok(spec) => spec,
        Err(_) => {
            assert(false);
            &registry.commands[0]
        },
    }
}

fn key_text(spec: &CommandSpec, request: &CommandRequest) -> (r: Option<String>)
    ensures
        r is Some <==> key_of(*spec, *request) is Some,
        r matches Some(k) ==> k@ == key_of(*spec, *request)->0,
{
    match idempotency_key(spec, request) {
        Some(k) => Some(String::from_str(k)),
        None => None,
    }
}

fn open(spec: &CommandSpec, request: CommandRequest) -> (r: (CommandRun, RunAction))
    ensures
        opening(*spec, request, r.0, r.1),
{
    if transactional_effect(spec.effect_class.as_str()) {
        let sha = transaction_fingerprint(&request);
        let summary = intended_summary(request.command.as_str());
        (
            CommandRun { phase: RunPhase::AwaitBegin, request, transaction: None, response: None },
            RunAction::BeginTransaction {
                request_sha256: sha,
                intended_summary: summary,
                effect_class: spec.effect_class.clone(),
                permission: spec.permission.clone(),
            },
        )
    } else {
        let version = spec.version;
        (
            CommandRun { phase: RunPhase::AwaitHandler, request, transaction: None, response: None },
            RunAction::Dispatch { command_version: version },
        )
    }
}

fn finish(
    registry: &CommandRegistry,
    spec: &CommandSpec,
    producer: &Producer,
    request: CommandRequest,
    response: CommandResponse,
) -> (r: (CommandRun, RunAction))
    ensures
        finishing(*registry, *spec, request, *producer, response, r.0, r.1),
{
    let answer = enforce_error_contract(registry, spec, &request, producer.clone(), response);
    (
        CommandRun { phase: RunPhase::Finished, request, transaction: None, response: None },
        RunAction::Answer {
            response: answer,
            effect_class: spec.effect_class.clone(),
            permission: spec.permission.clone(),
        },
    )
}

fn settle(
    registry: &CommandRegistry,
    spec: &CommandSpec,
    producer: &Producer,
    request: CommandRequest,
    transaction: Option<String>,
    response: CommandResponse,
) -> (r: (CommandRun, RunAction))
    ensures
        settling(*registry, *spec, request, *producer, transaction, response, r.0, r.1),
{
    match transaction {
        Some(id) => {
            let outcome = transaction_outcome(&request, &response);
            let transaction_id = id.clone();
            (
                CommandRun {
                    phase: RunPhase::AwaitClose,
                    request,
                    transaction: Some(id),
                    response: Some(response),
                },
                RunAction::CloseTransaction { transaction_id, outcome },
            )
        },
        None => finish(registry, spec, producer, request, response),
    }
}

/// Takes one step of a command run: given what the host reports, the run's
/// next state and what the host is to do.
pub fn command_step(
    registry: &CommandRegistry,
    authority: &ExecutionAuthority,
    producer: &Producer,
    run: CommandRun,
    event: StoreEvent,
) -> (r: (CommandRun, RunAction))
    requires
        run_wf(*registry, *authority, run),
        event_fits(run.phase, event),
    ensures
        run_wf(*registry, *authority, r.0),
        command_step_spec(*registry, *authority, *producer, run, event, r.0, r.1),
{
    let CommandRun { phase, mut request, transaction, response } = run;
    match event {
        StoreEvent::Start => {
            attribute_request(&mut request, authority);
            match admit_command(registry, &request, authority) {
                Err(refusal) => {
                    let answer = failure(
                        &request,
                        refusal.command_version,
                        producer.clone(),
                        refusal.code,
                        refusal.message,
                    );
                    (
                        CommandRun { phase: RunPhase::Finished, request, transaction: None, response: None },
                        RunAction::Answer {
                            response: answer,
                            effect_class: refusal.effect_class,
                            permission: refusal.permission,
                        },
                    )
                },
                Ok(spec) => match key_text(spec, &request) {
                    Some(key) => (
                        CommandRun {
                            phase: RunPhase::AwaitLookup,
                            request,
                            transaction: None,
                            response: None,
                        },
                        RunAction::LookUp { key },
                    ),
                    None => open(spec, request),
                },
            }
        },
        StoreEvent::Looked(stored) => {
            let spec = admitted(registry, &request, authority);
            if phase == RunPhase::AwaitLookup {
                match replay_outcome(&request, spec.version, producer.clone(), stored) {
                    Some(answer) => (
                        CommandRun { phase: RunPhase::Finished, request, transaction: None, response: None },
                        RunAction::Answer {
                            response: answer,
                            effect_class: spec.effect_class.clone(),
                            permission: spec.permission.clone(),
                        },
                    ),
                    None => open(spec, request),
                }
            } else {
                let again = replay_outcome(&request, spec.version, producer.clone(), stored);
                let ghost again_view = again;
                let x = contended_outcome(&request, spec.version, producer.clone(), again);
                let r = settle(registry, spec, producer, request, transaction, x);
                assert(contended_as(r.0.request, spec.version, *producer, again_view, x));
                r
            }
        },
        StoreEvent::Began(begun) => {
            let spec = admitted(registry, &request, authority);
            match begun {
                Ok(id) => (
                    CommandRun {
                        phase: RunPhase::AwaitHandler,
                        request,
                        transaction: Some(id),
                        response: None,
                    },
                    RunAction::Dispatch { command_version: spec.version },
                ),
                Err(e) => {
                    let answer = failure(&request, spec.version, producer.clone(), e.code, e.message);
                    (
                        CommandRun { phase: RunPhase::Finished, request, transaction: None, response: None },
                        RunAction::Answer {
                            response: answer,
                            effect_class: spec.effect_class.clone(),
                            permission: spec.permission.clone(),
                        },
                    )
                },
            }
        },
        StoreEvent::Handled(business) => {
            let spec = admitted(registry, &request, authority);
            let ghost business_view = business;
            let x = command_outcome(&request, spec, producer.clone(), business);
            assert(outcome_as(request, *spec, *producer, business_view, x));
            let key = key_text(spec, &request);
            if x.ok && key.is_some() {
                let sha = request_fingerprint(&request, spec.version);
                let k = match key {
                    Some(k) => k,
                    None => String::new(),
                };
                (
                    CommandRun { phase: RunPhase::AwaitKeep, request, transaction, response: Some(x) },
                    RunAction::Keep { key: k, request_sha256: sha },
                )
            } else {
                settle(registry, spec, producer, request, transaction, x)
            }
        },
        StoreEvent::Kept(kept) => {
            let spec = admitted(registry, &request, authority);
            let held = match response {
                Some(held) => held,
                None => {
                    assert(false);
                    failure(&request, 0, producer.clone(), "", String::new())
                },
            };
            let ghost held_view = held;
            let ghost kept_view = kept;
            let step = persist_step(&request, spec.version, producer.clone(), held, kept);
            assert(persisted_as(request, spec.version, *producer, held_view, kept_view, step));
            match step {
                PersistStep::Answer(x) => settle(registry, spec, producer, request, transaction, x),
                PersistStep::Contended => {
                    let key = match key_text(spec, &request) {
                        Some(k) => k,
                        None => String::new(),
                    };
                    (
                        CommandRun { phase: RunPhase::AwaitRelookup, request, transaction, response: None },
                        RunAction::LookUp { key },
                    )
                },
            }
        },
        StoreEvent::Closed(recorded) => {
            let spec = admitted(registry, &request, authority);
            let held = match response {
                Some(held) => held,
                None => {
                    assert(false);
                    failure(&request, 0, producer.clone(), "", String::new())
                },
            };
            let ghost held_view = held;
            let ghost recorded_view = recorded;
            let x = closed_transaction(&request, producer.clone(), held, recorded);
            assert(closed_as(request, *producer, held_view, recorded_view, x));
            finish(registry, spec, producer, request, x)
        },
    }
}


/// No command's handler runs, and no transaction is opened, for a request
/// that admission refuses; a transaction is opened only for a command whose
/// effect class is transactional.
pub proof fn law_no_work_before_admission(
    registry: CommandRegistry,
    authority: ExecutionAuthority,
    producer: Producer,
    run: CommandRun,
    event: StoreEvent,
    next: CommandRun,
    action: RunAction,
)
    requires
        run_wf(registry, authority, run),
        event_fits(run.phase, event),
        command_step_spec(registry, authority, producer, run, event, next, action),
    ensures
        (action is Dispatch || action is BeginTransaction) ==> admission_refusal(
            registry,
            next.request,
            authority,
        ) is None,
        action is BeginTransaction ==> is_transactional(admitted_spec(registry, next.request).effect_class@),
{
}

/// The response a step leaves: the answer, else the one the run holds.
pub open spec fn produced(action: RunAction, next: CommandRun) -> Option<CommandResponse> {
    match action {
        RunAction::Answer { response, .. } => Some(response),
        _ => next.response,
    }
}

/// Holding a response to the error contract never marks it replayed: a
/// replayed answer is the response itself.
proof fn lemma_enforced_keeps_replay(
    registry: CommandRegistry,
    spec: CommandSpec,
    request: CommandRequest,
    producer: Producer,
    response: CommandResponse,
    r: CommandResponse,
)
    requires
        enforced_as(registry, spec, request, producer, response, r),
        r.replayed,
    ensures
        r == response,
{
    if !response.ok && response.error is Some {
        let j = choose|j: Json|
            envelope_json(j, response.error->0) && contract_checked(
                r,
                registry,
                spec,
                request,
                producer,
                response,
                response.error->0,
                j,
            );
    }
}

/// An answer marked replayed comes only from an outcome kept under the key
/// for the same command and the same request fingerprint, read back whole;
/// a step that reads no kept outcome leaves no replayed response but one
/// the run already held.
pub proof fn law_replays_come_from_matching_records(
    registry: CommandRegistry,
    authority: ExecutionAuthority,
    producer: Producer,
    run: CommandRun,
    event: StoreEvent,
    next: CommandRun,
    action: RunAction,
)
    requires
        run_wf(registry, authority, run),
        event_fits(run.phase, event),
        command_step_spec(registry, authority, producer, run, event, next, action),
    ensures
        produced(action, next) is Some && produced(action, next)->0.replayed ==> (run.response
            == produced(action, next) || (
        event matches StoreEvent::Looked(StoredOutcome::Found { record, response: Ok(_) })
            && record.command@ == next.request.command@ && record.request_sha256@ == fingerprint_of(
            next.request,
            admitted_spec(registry, next.request).version,
        ))),
{
    let request = next.request;
    let spec = admitted_spec(registry, request);
    if produced(action, next) is Some && produced(action, next)->0.replayed {
        let x = produced(action, next)->0;
        match event {
            StoreEvent::Looked(stored) => {
                if run.phase != RunPhase::AwaitLookup {
                    let (again, y) = choose|again: Option<CommandResponse>, y: CommandResponse|
                        #![trigger contended_as(request, spec.version, producer, again, y)]
                        replayed_as(request, spec.version, producer, stored, again) && contended_as(
                            request,
                            spec.version,
                            producer,
                            again,
                            y,
                        ) && settling(registry, spec, request, producer, run.transaction, y, next, action);
                    if run.transaction is None {
                        lemma_enforced_keeps_replay(registry, spec, request, producer, y, x);
                    }
                }
            },
            StoreEvent::Handled(business) => {
                let y = choose|y: CommandResponse|
                    #![trigger outcome_as(request, spec, producer, business, y)]
                    outcome_as(request, spec, producer, business, y) && if y.ok && key_of(spec, request) is Some {
                        &&& next.phase == RunPhase::AwaitKeep
                        &&& next.transaction == run.transaction
                        &&& next.response == Some(y)
                        &&& action matches RunAction::Keep { key, request_sha256 }
                        &&& key@ == key_of(spec, request)->0
                        &&& request_sha256@ == fingerprint_of(request, spec.version)
                    } else {
                        settling(registry, spec, request, producer, run.transaction, y, next, action)
                    };
                if action is Answer {
                    lemma_enforced_keeps_replay(registry, spec, request, producer, y, x);
                }
            },
            StoreEvent::Kept(kept) => {
                let step = choose|step: PersistStep|
                    #![trigger persisted_as(request, spec.version, producer, run.response->0, kept, step)]
                    persisted_as(request, spec.version, producer, run.response->0, kept, step) && match step {
                        PersistStep::Answer(y) => settling(
                            registry,
                            spec,
                            request,
                            producer,
                            run.transaction,
                            y,
                            next,
                            action,
                        ),
                        PersistStep::Contended => {
                            &&& next.phase == RunPhase::AwaitRelookup
                            &&& next.transaction == run.transaction
                            &&& next.response is None
                            &&& action matches RunAction::LookUp { key }
                            &&& key@ == key_of(spec, request)->0
                        },
                    };
                if let PersistStep::Answer(y) = step {
                    if action is Answer {
                        lemma_enforced_keeps_replay(registry, spec, request, producer, y, x);
                    }
                }
            },
            StoreEvent::Closed(recorded) => {
                let y = choose|y: CommandResponse|
                    #![trigger closed_as(request, producer, run.response->0, recorded, y)]
                    closed_as(request, producer, run.response->0, recorded, y) && finishing(
                        registry,
                        spec,
                        request,
                        producer,
                        y,
                        next,
                        action,
                    );
                lemma_enforced_keeps_replay(registry, spec, request, producer, y, x);
            },
            _ => {},
        }
    }
}


/// The handler is run from the steps before it only: a run asks for it on
/// its way to waiting for the handler, and no step after the handler asks
/// for it again, so a command's handler runs at most once per run.
pub proof fn law_handler_runs_once(
    registry: CommandRegistry,
    authority: ExecutionAuthority,
    producer: Producer,
    run: CommandRun,
    event: StoreEvent,
    next: CommandRun,
    action: RunAction,
)
    requires
        run_wf(registry, authority, run),
        event_fits(run.phase, event),
        command_step_spec(registry, authority, producer, run, event, next, action),
    ensures
        action is Dispatch ==> next.phase == RunPhase::AwaitHandler && (run.phase == RunPhase::Received
            || run.phase == RunPhase::AwaitLookup || run.phase == RunPhase::AwaitBegin),
        next.phase == RunPhase::AwaitHandler ==> action is Dispatch,
{
}


/// A command that changes state (one of effect class `relay_state_write`,
/// `project_write`, `destructive`, `publish_external` or
/// `credential_change`) runs only inside a transaction: its handler is asked
/// for only once the transaction record has been opened, and the run then
/// holds that transaction; admitting such a command opens the transaction
/// first.
pub proof fn law_state_changes_run_inside_a_transaction(
    registry: CommandRegistry,
    authority: ExecutionAuthority,
    producer: Producer,
    run: CommandRun,
    event: StoreEvent,
    next: CommandRun,
    action: RunAction,
)
    requires
        run_wf(registry, authority, run),
        event_fits(run.phase, event),
        command_step_spec(registry, authority, producer, run, event, next, action),
        ({
            let c = admitted_spec(registry, next.request).effect_class@;
            c == "relay_state_write"@ || c == "project_write"@ || c == "destructive"@ || c
                == "publish_external"@ || c == "credential_change"@
        }),
    ensures
        action is Dispatch ==> run.phase == RunPhase::AwaitBegin && next.transaction is Some,
        run.phase == RunPhase::Received && next.phase == RunPhase::AwaitHandler ==> false,
        run.phase == RunPhase::Received && admission_refusal(registry, next.request, authority) is None
            && key_of(admitted_spec(registry, next.request), next.request) is None ==> action is BeginTransaction,
{
}

/// Only a command that changes state opens a transaction: a step that asks
/// to open one runs a command of effect class `relay_state_write`,
/// `project_write`, `destructive`, `publish_external` or `credential_change`.
pub proof fn law_only_state_changes_open_transactions(
    registry: CommandRegistry,
    authority: ExecutionAuthority,
    producer: Producer,
    run: CommandRun,
    event: StoreEvent,
    next: CommandRun,
    action: RunAction,
)
    requires
        run_wf(registry, authority, run),
        event_fits(run.phase, event),
        command_step_spec(registry, authority, producer, run, event, next, action),
    ensures
        action is BeginTransaction ==> ({
            let c = admitted_spec(registry, next.request).effect_class@;
            c == "relay_state_write"@ || c == "project_write"@ || c == "destructive"@ || c
                == "publish_external"@ || c == "credential_change"@
        }),
{
}

} // verus!
