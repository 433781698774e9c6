use vstd::prelude::*;

verus! {

/// Longest wait between two connection attempts, in milliseconds.
pub const MAX_BACKOFF_MS: u64 = 60_000;

/// Settings of one broker connection.
#[derive(Debug, Clone)]
pub struct MqttConfig {
    pub mqtt_host: String,
    pub mqtt_port: u16,
    pub mqtt_username: String,
    pub mqtt_password: String,
    pub mqtt_ssl_enabled: bool,
    pub mqtt_ssl_cert_path: Option<String>,
    pub log_topic: String,
    pub status_topic: String,
    pub command_topic: String,
    pub progress_topic: String,
    pub analytics_topic: String,
    pub mqtt_max_retries: i32,
    pub mqtt_retry_interval_ms: u64,
}

/// `c` is a lowercase hexadecimal digit.
pub open spec fn is_lower_hex(c: char) -> bool {
    ('0' <= c && c <= '9') || ('a' <= c && c <= 'f')
}

/// `s` is a UUID in hyphenated form: 36 characters, hyphens at positions 8,
/// 13, 18 and 23 (groups of 8-4-4-4-12), lowercase hexadecimal digits
/// elsewhere.
pub open spec fn is_hyphenated_uuid(s: Seq<char>) -> bool {
    &&& s.len() == 36
    &&& forall|i: int|
        0 <= i < 36 ==> if i == 8 || i == 13 || i == 18 || i == 23 {
            #[trigger] s[i] == '-'
        } else {
            is_lower_hex(s[i])
        }
}

/// Relies on `uuid::Uuid::new_v4` and the `Display` impl of `Uuid`: a fresh
/// random version-4 UUID, written in lowercase hyphenated form.
#[verifier::external_body]
fn random_token() -> (r: String)
    ensures
        is_hyphenated_uuid(r@),
{
    uuid::Uuid::new_v4().to_string()
}

/// Client identity made of `prefix` and the unique `token`: `<prefix>_<token>`.
pub fn client_id_from(prefix: &str, token: &str) -> (r: String)
    ensures
        r@ == prefix@ + "_"@ + token@,
{
    let mut s = String::from_str(prefix);
    s.append("_");
    s.append(token);
    s
}

/// A fresh client identity for one connection attempt: `prefix`, an
/// underscore, and a new random UUID.
pub fn new_client_id(prefix: &str) -> (r: String)
    ensures
        exists|token: Seq<char>| is_hyphenated_uuid(token) && r@ == prefix@ + "_"@ + token,
{
    let token = random_token();
    let r = client_id_from(prefix, token.as_str());
    assert(is_hyphenated_uuid(token@) && r@ == prefix@ + "_"@ + token@);
    r
}

/// Connection state as the manager reports it.
#[derive(Debug, Clone)]
pub enum ClientState {
    Disconnected,
    Connecting,
    Connected,
    Error(String),
}

/// What happened since the manager last decided.
#[derive(Debug, Clone)]
pub enum ConnEvent {
    /// The driver is ready for the next connection attempt.
    Start,
    /// The certificate named by the last `Connect` could not be read.
    CertificateUnreadable,
    /// The control topic subscription was acknowledged.
    Subscribed,
    /// The control topic subscription failed, for the given reason.
    SubscribeFailed(String),
    /// The live connection's event loop reported an I/O error.
    ConnectionLost,
}

/// Why the manager gave up for good.
#[derive(Debug, Clone, Copy, PartialEq, Eq)]
pub enum StopReason {
    /// The configured number of consecutive failures was reached.
    RetriesExhausted,
    /// TLS is enabled but no certificate path is configured.
    MissingCertificatePath,
    /// TLS is enabled but the certificate file could not be read.
    CertificateUnreadable,
}

/// What the driver has to do next.
#[derive(Debug, Clone)]
pub enum ConnAction {
    /// Open a connection and subscribe to the control topic; where a path is
    /// given, read the CA certificate from it first and use TLS.
    Connect { certificate: Option<String> },
    /// The connection is up: poll its event loop until it fails.
    Serve,
    /// Wait this many milliseconds, then report `Start`.
    Sleep(u64),
    /// Give up for good.
    Stop(StopReason),
    /// The event does not fit the current state; nothing changes.
    Ignore,
}

/// Next wait after one at `ms`: doubled, but never above `MAX_BACKOFF_MS`.
pub open spec fn backoff(ms: u64) -> u64 {
    if ms >= MAX_BACKOFF_MS / 2 {
        MAX_BACKOFF_MS
    } else {
        (2 * ms) as u64
    }
}

/// Reconnect and backoff decisions of one broker connection.
pub struct ConnectionManager {
    state: ClientState,
    base_interval_ms: u64,
    interval_ms: u64,
    max_retries: i32,
    failures: u32,
    stopped: Option<StopReason>,
    tls_enabled: bool,
    cert_path: Option<String>,
}

impl ConnectionManager {
    /// The reported connection state.
    pub closed spec fn spec_state(&self) -> ClientState {
        self.state
    }

    /// The configured base wait, in milliseconds.
    pub closed spec fn base_interval(&self) -> u64 {
        self.base_interval_ms
    }

    /// The wait the next failure asks for, in milliseconds.
    pub closed spec fn interval(&self) -> u64 {
        self.interval_ms
    }

    /// Consecutive failures since the last successful subscription.
    pub closed spec fn failure_count(&self) -> u32 {
        self.failures
    }

    /// Why the manager gave up, once it has.
    pub closed spec fn stop_reason(&self) -> Option<StopReason> {
        self.stopped
    }

    /// The configured retry limit; zero or less means unlimited.
    pub closed spec fn retry_limit(&self) -> i32 {
        self.max_retries
    }

    /// A positive limit was set and that many consecutive failures happened.
    pub open spec fn budget_exhausted(&self) -> bool {
        self.retry_limit() > 0 && self.failure_count() >= self.retry_limit()
    }

    /// Whether TLS is enabled.
    pub closed spec fn tls_on(&self) -> bool {
        self.tls_enabled
    }

    /// The configured CA certificate path.
    pub closed spec fn certificate_path(&self) -> Option<String> {
        self.cert_path
    }

    /// `m` with a failure counted: state `s`, one more consecutive failure
    /// (saturating) and a longer wait.
    closed spec fn after_failure(m: Self, s: ClientState) -> Self {
        ConnectionManager {
            state: s,
            interval_ms: backoff(m.interval_ms),
            failures: if m.failures < u32::MAX {
                (m.failures + 1) as u32
            } else {
                m.failures
            },
            ..m
        }
    }

    /// The decision for `e` in `m`: the next manager and the action.
    pub closed spec fn next(m: Self, e: ConnEvent) -> (Self, ConnAction) {
        if let Some(r) = m.stopped {
            (m, ConnAction::Stop(r))
        } else {
            match e {
                ConnEvent::Start => match m.state {
                    ClientState::Disconnected | ClientState::Error(_) => {
                        if m.budget_exhausted() {
                            (
                                ConnectionManager { stopped: Some(StopReason::RetriesExhausted), ..m },
                                ConnAction::Stop(StopReason::RetriesExhausted),
                            )
                        } else if m.tls_enabled && m.cert_path is None {
                            (
                                ConnectionManager {
                                    stopped: Some(StopReason::MissingCertificatePath),
                                    ..m
                                },
                                ConnAction::Stop(StopReason::MissingCertificatePath),
                            )
                        } else {
                            (
                                ConnectionManager { state: ClientState::Connecting, ..m },
                                ConnAction::Connect {
                                    certificate: if m.tls_enabled {
                                        m.cert_path
                                    } else {
                                        None
                                    },
                                },
                            )
                        }
                    },
                    _ => (m, ConnAction::Ignore),
                },
                ConnEvent::CertificateUnreadable => match m.state {
                    ClientState::Connecting => (
                        ConnectionManager {
                            state: ClientState::Disconnected,
                            stopped: Some(StopReason::CertificateUnreadable),
                            ..m
                        },
                        ConnAction::Stop(StopReason::CertificateUnreadable),
                    ),
                    _ => (m, ConnAction::Ignore),
                },
                ConnEvent::Subscribed => match m.state {
                    ClientState::Connecting => (
                        ConnectionManager {
                            state: ClientState::Connected,
                            interval_ms: m.base_interval_ms,
                            failures: 0,
                            ..m
                        },
                        ConnAction::Serve,
                    ),
                    _ => (m, ConnAction::Ignore),
                },
                ConnEvent::SubscribeFailed(reason) => match m.state {
                    ClientState::Connecting => (
                        Self::after_failure(m, ClientState::Error(reason)),
                        ConnAction::Sleep(m.interval_ms),
                    ),
                    _ => (m, ConnAction::Ignore),
                },
                ConnEvent::ConnectionLost => match m.state {
                    ClientState::Connected => (
                        Self::after_failure(m, ClientState::Disconnected),
                        ConnAction::Sleep(m.interval_ms),
                    ),
                    _ => (m, ConnAction::Ignore),
                },
            }
        }
    }

    /// `n` has state `st`, wait `interval`, failure count `failures` and stop
    /// reason `stop`, and the settings of `m`.
    pub open spec fn moved_to(
        m: Self,
        n: Self,
        st: ClientState,
        interval: u64,
        failures: u32,
        stop: Option<StopReason>,
    ) -> bool {
        &&& n.spec_state() == st
        &&& n.interval() == interval
        &&& n.failure_count() == failures
        &&& n.stop_reason() == stop
        &&& n.base_interval() == m.base_interval()
        &&& n.retry_limit() == m.retry_limit()
        &&& n.tls_on() == m.tls_on()
        &&& n.certificate_path() == m.certificate_path()
    }

    /// The decision for event `e` in manager `m`, stated over the public
    /// accessors: `n` is the manager after it and `a` the action.
    ///
    /// A stopped manager answers every event with its stop and does not
    /// change. Otherwise: `Start` in `Disconnected` or `Error` stops where
    /// the retry budget is spent or TLS has no certificate path, and else
    /// connects (passing the path only with TLS on); a failed certificate
    /// read stops; a successful subscription connects, resets the wait to
    /// the base and the failure count to 0; a failed subscription (while
    /// connecting) or a lost connection (while connected) counts a failure,
    /// sleeps the current wait and doubles it up to `MAX_BACKOFF_MS`. Any
    /// other event is ignored and changes nothing.
    pub open spec fn transition(m: Self, n: Self, e: ConnEvent, a: ConnAction) -> bool {
        let failed = if m.failure_count() < u32::MAX {
            (m.failure_count() + 1) as u32
        } else {
            m.failure_count()
        };
        let unchanged = n == m && a == ConnAction::Ignore;
        if let Some(r) = m.stop_reason() {
            n == m && a == ConnAction::Stop(r)
        } else {
            match e {
                ConnEvent::Start => if m.spec_state() is Disconnected || m.spec_state() is Error {
                    if m.budget_exhausted() {
                        &&& Self::moved_to(m, n, m.spec_state(), m.interval(), m.failure_count(), Some(StopReason::RetriesExhausted))
                        &&& a == ConnAction::Stop(StopReason::RetriesExhausted)
                    } else if m.tls_on() && m.certificate_path() is None {
                        &&& Self::moved_to(m, n, m.spec_state(), m.interval(), m.failure_count(), Some(StopReason::MissingCertificatePath))
                        &&& a == ConnAction::Stop(StopReason::MissingCertificatePath)
                    } else {
                        &&& Self::moved_to(m, n, ClientState::Connecting, m.interval(), m.failure_count(), None)
                        &&& a == ConnAction::Connect {
                            certificate: if m.tls_on() { m.certificate_path() } else { None },
                        }
                    }
                } else {
                    unchanged
                },
                ConnEvent::CertificateUnreadable => if m.spec_state() is Connecting {
                    &&& Self::moved_to(m, n, ClientState::Disconnected, m.interval(), m.failure_count(), Some(StopReason::CertificateUnreadable))
                    &&& a == ConnAction::Stop(StopReason::CertificateUnreadable)
                } else {
                    unchanged
                },
                ConnEvent::Subscribed => if m.spec_state() is Connecting {
                    &&& Self::moved_to(m, n, ClientState::Connected, m.base_interval(), 0, None)
                    &&& a == ConnAction::Serve
                } else {
                    unchanged
                },
                ConnEvent::SubscribeFailed(reason) => if m.spec_state() is Connecting {
                    &&& Self::moved_to(m, n, ClientState::Error(reason), backoff(m.interval()), failed, None)
                    &&& a == ConnAction::Sleep(m.interval())
                } else {
                    unchanged
                },
                ConnEvent::ConnectionLost => if m.spec_state() is Connected {
                    &&& Self::moved_to(m, n, ClientState::Disconnected, backoff(m.interval()), failed, None)
                    &&& a == ConnAction::Sleep(m.interval())
                } else {
                    unchanged
                },
            }
        }
    }

    /// `next` is the decision that `transition` describes.
    pub proof fn lemma_next_is_transition(m: Self, e: ConnEvent)
        ensures
            Self::transition(m, Self::next(m, e).0, e, Self::next(m, e).1),
    {
    }

    /// A manager for `config`, disconnected, with no failure counted and the
    /// base interval as the next wait. A limit of zero or less means
    /// unlimited retries.
    pub fn new(config: &MqttConfig) -> (r: Self)
        ensures
            r.spec_state() is Disconnected,
            r.base_interval() == config.mqtt_retry_interval_ms,
            r.interval() == config.mqtt_retry_interval_ms,
            r.retry_limit() == config.mqtt_max_retries,
            r.failure_count() == 0,
            r.stop_reason() is None,
            r.tls_on() == config.mqtt_ssl_enabled,
            r.certificate_path() == config.mqtt_ssl_cert_path,
    {
        let cert_path = match &config.mqtt_ssl_cert_path {
            Some(p) => Some(p.clone()),
            None => None,
        };
        ConnectionManager {
            state: ClientState::Disconnected,
            base_interval_ms: config.mqtt_retry_interval_ms,
            interval_ms: config.mqtt_retry_interval_ms,
            max_retries: config.mqtt_max_retries,
            failures: 0,
            stopped: None,
            tls_enabled: config.mqtt_ssl_enabled,
            cert_path,
        }
    }

    /// The current state.
    pub fn state(&self) -> (r: &ClientState)
        ensures
            *r == self.spec_state(),
    {
        &self.state
    }

    /// The wait that the next failure will ask for, in milliseconds.
    pub fn retry_interval_ms(&self) -> (r: u64)
        ensures
            r == self.interval(),
    {
        self.interval_ms
    }

    /// Consecutive failures since the last successful subscription.
    pub fn failures(&self) -> (r: u32)
        ensures
            r == self.failure_count(),
    {
        self.failures
    }

    /// Why the manager gave up, if it has.
    pub fn stopped(&self) -> (r: Option<StopReason>)
        ensures
            r == self.stop_reason(),
    {
        self.stopped
    }

    fn fail(&mut self, s: ClientState) -> (wait: u64)
        ensures
            *final(self) == Self::after_failure(*old(self), s),
            wait == old(self).interval_ms,
    {
        let wait = self.interval_ms;
        self.state = s;
        self.interval_ms = if self.interval_ms >= MAX_BACKOFF_MS / 2 {
            MAX_BACKOFF_MS
        } else {
            2 * self.interval_ms
        };
        if self.failures < u32::MAX {
            self.failures = self.failures + 1;
        }
        wait
    }

    /// Applies `event` and says what the driver must do next.
    pub fn step(&mut self, event: ConnEvent) -> (action: ConnAction)
        ensures
            (*final(self), action) == Self::next(*old(self), event),
            Self::transition(*old(self), *final(self), event, action),
    {
        proof {
            Self::lemma_next_is_transition(*old(self), event);
        }
        if let Some(r) = self.stopped {
            return ConnAction::Stop(r);
        }
        match event {
            ConnEvent::Start => {
                let ready = match &self.state {
                    ClientState::Disconnected => true,
                    ClientState::Error(_) => true,
                    _ => false,
                };
                if !ready {
                    ConnAction::Ignore
                } else if self.max_retries > 0 && self.failures as i64 >= self.max_retries as i64 {
                    self.stopped = Some(StopReason::RetriesExhausted);
                    ConnAction::Stop(StopReason::RetriesExhausted)
                } else if self.tls_enabled && self.cert_path.is_none() {
                    self.stopped = Some(StopReason::MissingCertificatePath);
                    ConnAction::Stop(StopReason::MissingCertificatePath)
                } else {
                    self.state = ClientState::Connecting;
                    let certificate = if self.tls_enabled {
                        match &self.cert_path {
                            Some(p) => Some(p.clone()),
                            None => None,
                        }
                    } else {
                        None
                    };
                    ConnAction::Connect { certificate }
                }
            },
            ConnEvent::CertificateUnreadable => {
                if matches!(self.state, ClientState::Connecting) {
                    self.state = ClientState::Disconnected;
                    self.stopped = Some(StopReason::CertificateUnreadable);
                    ConnAction::Stop(StopReason::CertificateUnreadable)
                } else {
                    ConnAction::Ignore
                }
            },
            ConnEvent::Subscribed => {
                if matches!(self.state, ClientState::Connecting) {
                    self.state = ClientState::Connected;
                    self.interval_ms = self.base_interval_ms;
                    self.failures = 0;
                    ConnAction::Serve
                } else {
                    ConnAction::Ignore
                }
            },
            ConnEvent::SubscribeFailed(reason) => {
                if matches!(self.state, ClientState::Connecting) {
                    ConnAction::Sleep(self.fail(ClientState::Error(reason)))
                } else {
                    ConnAction::Ignore
                }
            },
            ConnEvent::ConnectionLost => {
                if matches!(self.state, ClientState::Connected) {
                    ConnAction::Sleep(self.fail(ClientState::Disconnected))
                } else {
                    ConnAction::Ignore
                }
            },
        }
    }
}

impl ConnectionManager {
    /// The manager after the events `evs`, in order.
    pub closed spec fn run(m: Self, evs: Seq<ConnEvent>) -> Self
        decreases evs.len(),
    {
        if evs.len() == 0 {
            m
        } else {
            Self::next(Self::run(m, evs.drop_last()), evs.last()).0
        }
    }

    /// The manager after `k` rounds in which the attempt starts and its
    /// subscription fails with `reason`.
    pub closed spec fn failing_rounds(m: Self, reason: String, k: nat) -> Self
        decreases k,
    {
        if k == 0 {
            m
        } else {
            let started = Self::next(Self::failing_rounds(m, reason, (k - 1) as nat), ConnEvent::Start).0;
            Self::next(started, ConnEvent::SubscribeFailed(reason)).0
        }
    }

    /// One step: the state becomes `Connected` only on a successful
    /// subscription; the wait shrinks only then, back to the base value;
    /// otherwise it stays or grows to its backoff.
    pub proof fn lemma_step(m: Self, e: ConnEvent)
        ensures
            ({
                let n = Self::next(m, e).0;
                &&& (n.spec_state() is Connected && !(m.spec_state() is Connected)) ==> e is Subscribed
                &&& n.interval() == m.interval() || n.interval() == backoff(m.interval())
                    || (e is Subscribed && n.interval() == m.base_interval())
                &&& n.base_interval() == m.base_interval()
                &&& m.stop_reason() is Some ==> n == m
            }),
    {
    }

    /// A manager that is not connected reaches `Connected` only after a
    /// successful subscription among the events it was given.
    pub proof fn lemma_connected_needs_subscribe(m: Self, evs: Seq<ConnEvent>)
        requires
            !(m.spec_state() is Connected),
        ensures
            Self::run(m, evs).spec_state() is Connected ==> exists|j: int|
                0 <= j < evs.len() && #[trigger] evs[j] is Subscribed,
        decreases evs.len(),
    {
        if evs.len() > 0 {
            let prev = Self::run(m, evs.drop_last());
            Self::lemma_connected_needs_subscribe(m, evs.drop_last());
            Self::lemma_step(prev, evs.last());
            if Self::run(m, evs).spec_state() is Connected {
                if prev.spec_state() is Connected {
                    let j = choose|j: int| 0 <= j < evs.drop_last().len() && #[trigger] evs.drop_last()[j] is Subscribed;
                    assert(evs[j] is Subscribed);
                } else {
                    assert(evs[evs.len() - 1] is Subscribed);
                }
            }
        }
    }

    /// Between two successful subscriptions the wait never shrinks and stays
    /// within `MAX_BACKOFF_MS`, given a base no larger than that bound.
    pub proof fn lemma_backoff_monotone(m: Self, evs: Seq<ConnEvent>)
        requires
            m.base_interval() <= MAX_BACKOFF_MS,
            m.interval() <= MAX_BACKOFF_MS,
            forall|j: int| 0 <= j < evs.len() ==> !(#[trigger] evs[j] is Subscribed),
        ensures
            m.interval() <= Self::run(m, evs).interval() <= MAX_BACKOFF_MS,
            Self::run(m, evs).base_interval() == m.base_interval(),
        decreases evs.len(),
    {
        if evs.len() > 0 {
            let prev = Self::run(m, evs.drop_last());
            Self::lemma_backoff_monotone(m, evs.drop_last());
            Self::lemma_step(prev, evs.last());
            assert(!(evs[evs.len() - 1] is Subscribed));
        }
    }

    proof fn lemma_failing_rounds(m: Self, reason: String, k: nat)
        requires
            m.spec_state() is Disconnected,
            m.failure_count() == 0,
            m.stop_reason() is None,
            m.retry_limit() > 0,
            k <= m.retry_limit(),
            !(m.tls_on() && m.certificate_path() is None),
        ensures
            ({
                let r = Self::failing_rounds(m, reason, k);
                &&& r.spec_state() is Disconnected || r.spec_state() is Error
                &&& r.failure_count() == k
                &&& r.stop_reason() is None
                &&& r.retry_limit() == m.retry_limit()
                &&& r.tls_on() == m.tls_on()
                &&& r.certificate_path() == m.certificate_path()
            }),
        decreases k,
    {
        if k > 0 {
            Self::lemma_failing_rounds(m, reason, (k - 1) as nat);
        }
    }

    /// Retry budget: with a positive limit `N` and every subscription
    /// failing, a fresh manager makes exactly `N` attempts, refuses the next
    /// one, and from then on answers every event with the same stop.
    pub proof fn lemma_retry_budget(m: Self, reason: String)
        requires
            m.spec_state() is Disconnected,
            m.failure_count() == 0,
            m.stop_reason() is None,
            m.retry_limit() > 0,
            !(m.tls_on() && m.certificate_path() is None),
        ensures
            forall|k: nat|
                k < m.retry_limit() ==> #[trigger] Self::next(
                    Self::failing_rounds(m, reason, k),
                    ConnEvent::Start,
                ).1 is Connect,
            ({
                let done = Self::next(
                    Self::failing_rounds(m, reason, m.retry_limit() as nat),
                    ConnEvent::Start,
                );
                &&& done.1 == ConnAction::Stop(StopReason::RetriesExhausted)
                &&& forall|e: ConnEvent| #[trigger] Self::next(done.0, e) == (
                    done.0,
                    ConnAction::Stop(StopReason::RetriesExhausted),
                )
            }),
    {
        assert forall|k: nat| k < m.retry_limit() implies #[trigger] Self::next(
            Self::failing_rounds(m, reason, k),
            ConnEvent::Start,
        ).1 is Connect by {
            Self::lemma_failing_rounds(m, reason, k);
        }
        Self::lemma_failing_rounds(m, reason, m.retry_limit() as nat);
    }
}

} // verus!
