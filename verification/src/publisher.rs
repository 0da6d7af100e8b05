//! The publisher worker: a state machine that consumes payloads from the
//! channel, serializes and signs ordinary events, posts them, retries failed
//! deliveries with linear backoff, moves events that exhausted their retries
//! to a backlog, applies live reconfiguration, and drains the backlog once
//! when the shutdown sentinel arrives.
//!
//! The worker is written as a step function: every blocking effect (waiting
//! on the channel, the HTTP post, the backoff sleep) is returned to the
//! caller as an [`Action`], and the outcome comes back as the next
//! [`Input`]. The surrounding I/O loop performs the actions; everything the
//! worker decides is verified here against [`machine_step`].
use vstd::prelude::*;
use crate::event::Event;
use crate::json::json_of;
use crate::json::to_json;
use crate::signer::hex_of;
use crate::signer::hmac_sha256_of;
use crate::signer::InvalidKeyLength;
use crate::signer::Signer;

verus! {

/// How many retries follow the initial delivery attempt before an event is
/// given up and moved to the backlog.
pub const MAX_TRIES: u64 = 5;

/// What travels on the channel: an ordinary domain event, or the shutdown
/// sentinel (distinct from the track-stop event `Event::Stop`).
#[derive(Debug)]
pub enum Payload {
    Event(Event),
    Stop,
}

/// What the worker hears from the outside: a payload received from the
/// channel, the outcome of a post (`true` means HTTP 2xx; any other status
/// or transport failure is `false`), the end of a backoff sleep, or a
/// channel fault, which is logged and survived.
#[derive(Debug)]
pub enum Input {
    Payload(Payload),
    PostResult(bool),
    Slept,
    ChannelError,
}

/// What the worker asks the I/O loop to do next: wait for the next payload,
/// post a signed body, sleep before a retry, or finish.
#[derive(Debug)]
pub enum Action {
    Receive,
    Post { url: String, body: String, signature: String },
    Sleep { millis: u64 },
    Done,
}

/// The abstract value of an [`Action`].
pub ghost enum ActionModel {
    Receive,
    Post { url: Seq<char>, body: Seq<char>, signature: Seq<char> },
    Sleep { millis: int },
    Done,
}

impl View for Action {
    type V = ActionModel;

    open spec fn view(&self) -> ActionModel {
        match self {
            Action::Receive => ActionModel::Receive,
            Action::Post { url, body, signature } => ActionModel::Post {
                url: url@,
                body: body@,
                signature: signature@,
            },
            Action::Sleep { millis } => ActionModel::Sleep { millis: *millis as int },
            Action::Done => ActionModel::Done,
        }
    }
}

/// Where the worker stands. `Idle`, `InFlight` and `Backoff` are the running
/// states; `Draining` is entered on the shutdown sentinel; `Terminated` is
/// terminal.
#[derive(Debug)]
pub enum Phase {
    /// Waiting for the next payload.
    Idle,
    /// A delivery attempt for `event` is out; `attempt` is its zero-based
    /// index.
    InFlight { event: Event, attempt: u64 },
    /// Attempt `attempt` failed; sleeping before the next one.
    Backoff { event: Event, attempt: u64 },
    /// The shutdown sentinel arrived; the single drain attempt for backlog
    /// entry `next` is out.
    Draining { next: usize },
    /// The drain is complete; the worker has returned.
    Terminated,
}

/// The abstract state of the worker: the configured endpoint, the signing
/// secret, the backlog in insertion order, and the phase.
#[verifier::ext_equal]
pub ghost struct PubModel {
    pub url: Seq<char>,
    pub key: Seq<char>,
    pub backlog: Seq<Event>,
    pub phase: Phase,
}

/// The bounds the worker maintains: attempt counters never pass the retry
/// ceiling, and a drain position always points into the backlog.
pub open spec fn model_inv(m: PubModel) -> bool {
    match m.phase {
        Phase::InFlight { attempt, .. } => attempt <= MAX_TRIES,
        Phase::Backoff { attempt, .. } => attempt < MAX_TRIES,
        Phase::Draining { next } => (next as int) < m.backlog.len(),
        _ => true,
    }
}

/// Which inputs the worker can take in each phase: a payload or a channel
/// fault while idle, a post outcome while one is out, the end of the sleep
/// while backing off.
pub open spec fn step_enabled(m: PubModel, input: Input) -> bool {
    match input {
        Input::Payload(_) => m.phase is Idle,
        Input::ChannelError => m.phase is Idle,
        Input::PostResult(_) => m.phase is InFlight || m.phase is Draining,
        Input::Slept => m.phase is Backoff,
    }
}

/// The post the worker issues for `e` in state `m`: the configured URL, the
/// canonical JSON body, and the body's signature under the current secret.
pub open spec fn post_action(m: PubModel, e: Event) -> ActionModel {
    ActionModel::Post {
        url: m.url,
        body: json_of(e),
        signature: hex_of(hmac_sha256_of(m.key, json_of(e))),
    }
}

/// The complete transition relation of the worker: the state after taking
/// `input` in state `m`, and the action the worker asks for next.
pub open spec fn machine_step(m: PubModel, input: Input) -> (PubModel, ActionModel) {
    match input {
        Input::Payload(p) => match p {
            Payload::Event(e) => match e {
                Event::ConfigChanged(c) => (
                    PubModel {
                        url: c.url@,
                        key: if c.secret@.len() > 0 {
                            c.secret@
                        } else {
                            m.key
                        },
                        ..m
                    },
                    ActionModel::Receive,
                ),
                _ => (
                    PubModel { phase: Phase::InFlight { event: e, attempt: 0 }, ..m },
                    post_action(m, e),
                ),
            },
            Payload::Stop => if m.backlog.len() == 0 {
                (PubModel { phase: Phase::Terminated, ..m }, ActionModel::Done)
            } else {
                (
                    PubModel { phase: Phase::Draining { next: 0 }, ..m },
                    post_action(m, m.backlog[0]),
                )
            },
        },
        Input::ChannelError => (m, ActionModel::Receive),
        Input::PostResult(ok) => match m.phase {
            Phase::InFlight { event, attempt } => if ok {
                (PubModel { phase: Phase::Idle, ..m }, ActionModel::Receive)
            } else if attempt >= MAX_TRIES {
                (
                    PubModel { phase: Phase::Idle, backlog: m.backlog.push(event), ..m },
                    ActionModel::Receive,
                )
            } else {
                (
                    PubModel { phase: Phase::Backoff { event, attempt }, ..m },
                    ActionModel::Sleep { millis: 100 * attempt },
                )
            },
            Phase::Draining { next } => if next + 1 < m.backlog.len() {
                (
                    PubModel { phase: Phase::Draining { next: (next + 1) as usize }, ..m },
                    post_action(m, m.backlog[next + 1]),
                )
            } else {
                (PubModel { phase: Phase::Terminated, ..m }, ActionModel::Done)
            },
            _ => (m, ActionModel::Receive),
        },
        Input::Slept => match m.phase {
            Phase::Backoff { event, attempt } => (
                PubModel {
                    phase: Phase::InFlight { event, attempt: (attempt + 1) as u64 },
                    ..m
                },
                post_action(m, event),
            ),
            _ => (m, ActionModel::Receive),
        },
    }
}

/// The error taxonomy of the worker. An empty signing secret is the only
/// construction-time failure; delivery failures are represented by the HTTP
/// status or as a transport fault, and are absorbed by the retry and backlog
/// policy rather than surfaced.
#[derive(Debug)]
pub enum PublisherError {
    InvalidKeyLength(InvalidKeyLength),
    RequestFailed(u16),
    Transport,
}

/// The publisher worker's state: endpoint, signer, backlog and phase. Built
/// once at startup from the configured URL and secret; reconfigured only by
/// `ConfigChanged` events flowing through the channel.
#[derive(Debug)]
pub struct Publisher {
    url: String,
    signer: Signer,
    backlog: Vec<Event>,
    phase: Phase,
}

impl View for Publisher {
    type V = PubModel;

    closed spec fn view(&self) -> PubModel {
        PubModel { url: self.url@, key: self.signer@, backlog: self.backlog@, phase: self.phase }
    }
}

impl Publisher {
    /// Builds a worker for `url`, signing with `secret`; an empty secret
    /// aborts construction.
    pub fn new(url: String, secret: String) -> (r: Result<Publisher, PublisherError>)
        ensures
            secret@.len() > 0 ==> (r matches Ok(p) && p@ == (PubModel {
                url: url@,
                key: secret@,
                backlog: Seq::<Event>::empty(),
                phase: Phase::Idle,
            }) && model_inv(p@)),
            secret@.len() == 0 ==> (r matches Err(e) && e is InvalidKeyLength),
    {
        match Signer::new(secret) {
            Ok(signer) => {
                let p = Publisher { url, signer, backlog: Vec::new(), phase: Phase::Idle };
                proof {
                    assert(p@ =~= (PubModel {
                        url: p.url@,
                        key: p.signer@,
                        backlog: Seq::<Event>::empty(),
                        phase: Phase::Idle,
                    }));
                }
                Ok(p)
            },
            Err(e) => Err(PublisherError::InvalidKeyLength(e)),
        }
    }

    /// The currently configured endpoint.
    pub fn current_url(&self) -> (r: &String)
        ensures
            r@ == self@.url,
    {
        &self.url
    }

    /// How many events have exhausted their retries so far.
    pub fn backlog_len(&self) -> (r: usize)
        ensures
            r == self@.backlog.len(),
    {
        self.backlog.len()
    }

    /// Whether the worker has finished its drain and returned.
    pub fn is_terminated(&self) -> (r: bool)
        ensures
            r == (self@.phase is Terminated),
    {
        match self.phase {
            Phase::Terminated => true,
            _ => false,
        }
    }

    /// Builds the post for `event` in the current state: body and signature.
    fn make_post(&self, event: &Event) -> (r: Action)
        ensures
            r@ == post_action(self@, *event),
    {
        let body = to_json(event);
        let signature = self.signer.sign_hex(body.as_str());
        let url = self.url.clone();
        Action::Post { url, body, signature }
    }

    /// Takes one input and moves the worker one step, returning the next
    /// action for the I/O loop. The entire transition is pinned by
    /// [`machine_step`].
    pub fn step(&mut self, input: Input) -> (r: Action)
        requires
            model_inv(old(self)@),
            step_enabled(old(self)@, input),
        ensures
            model_inv(final(self)@),
            final(self)@ == machine_step(old(self)@, input).0,
            r@ == machine_step(old(self)@, input).1,
    {
        match input {
            Input::Payload(p) => match p {
                Payload::Event(e) => match e {
                    Event::ConfigChanged(c) => {
                        self.url = c.url;
                        match Signer::new(c.secret) {
                            Ok(s) => {
                                self.signer = s;
                            },
                            Err(_) => {},
                        }
                        proof {
                            assert(self@ =~= machine_step(old(self)@, input).0);
                        }
                        Action::Receive
                    },
                    e2 => {
                        let action = self.make_post(&e2);
                        self.phase = Phase::InFlight { event: e2, attempt: 0 };
                        proof {
                            assert(self@ =~= machine_step(old(self)@, input).0);
                        }
                        action
                    },
                },
                Payload::Stop => {
                    if self.backlog.len() == 0 {
                        self.phase = Phase::Terminated;
                        proof {
                            assert(self@ =~= machine_step(old(self)@, input).0);
                        }
                        Action::Done
                    } else {
                        let action = self.make_post(&self.backlog[0]);
                        self.phase = Phase::Draining { next: 0 };
                        proof {
                            assert(self@ =~= machine_step(old(self)@, input).0);
                        }
                        action
                    }
                },
            },
            Input::ChannelError => {
                proof {
                    assert(self@ =~= machine_step(old(self)@, input).0);
                }
                Action::Receive
            },
            Input::PostResult(ok) => {
                let mut ph = Phase::Idle;
                core::mem::swap(&mut self.phase, &mut ph);
                match ph {
                    Phase::InFlight { event, attempt } => {
                        if ok {
                            proof {
                                assert(self@ =~= machine_step(old(self)@, input).0);
                            }
                            Action::Receive
                        } else if attempt >= MAX_TRIES {
                            self.backlog.push(event);
                            proof {
                                assert(self@ =~= machine_step(old(self)@, input).0);
                            }
                            Action::Receive
                        } else {
                            let millis = 100 * attempt;
                            self.phase = Phase::Backoff { event, attempt };
                            proof {
                                assert(self@ =~= machine_step(old(self)@, input).0);
                            }
                            Action::Sleep { millis }
                        }
                    },
                    Phase::Draining { next } => {
                        let len = self.backlog.len();
                        if next + 1 < len {
                            let action = self.make_post(&self.backlog[next + 1]);
                            self.phase = Phase::Draining { next: next + 1 };
                            proof {
                                assert(self@ =~= machine_step(old(self)@, input).0);
                            }
                            action
                        } else {
                            self.phase = Phase::Terminated;
                            proof {
                                assert(self@ =~= machine_step(old(self)@, input).0);
                            }
                            Action::Done
                        }
                    },
                    _ => {
                        proof {
                            assert(false);
                        }
                        Action::Receive
                    },
                }
            },
            Input::Slept => {
                let mut ph = Phase::Idle;
                core::mem::swap(&mut self.phase, &mut ph);
                match ph {
                    Phase::Backoff { event, attempt } => {
                        let action = self.make_post(&event);
                        self.phase = Phase::InFlight { event, attempt: attempt + 1 };
                        proof {
                            assert(self@ =~= machine_step(old(self)@, input).0);
                        }
                        action
                    },
                    _ => {
                        proof {
                            assert(false);
                        }
                        Action::Receive
                    },
                }
            },
        }
    }
}

} // verus!
