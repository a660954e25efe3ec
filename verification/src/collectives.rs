use vstd::prelude::*;
use crate::config::{str_eq, ConfigurationValue};
use crate::errors::Error;
use crate::neighbours::{immediate_neighbours_cv_builder, ImmediateNeighboursCVBuilder};
use crate::simple_pattern::{get_candidates_selection, usize_number};

verus! {

broadcast use vstd::string::to_string_from_display_ensures_for_str;

/// Pauses a traffic after every task has sent a fixed number of messages,
/// and releases the barrier once all of them were consumed.  The wrapped
/// traffic itself stays with the caller; this record keeps the counters and
/// takes the decisions.
pub struct MessageBarrier {
    tasks: usize,
    messages_per_task_to_wait: usize,
    total_sent_per_task: Vec<usize>,
    total_sent: usize,
    total_consumed: usize,
    total_consumed_per_task: Vec<usize>,
    expected_messages_to_consume_to_wait: Option<usize>,
}

impl MessageBarrier {
    /// Builds the barrier state for the given number of tasks.
    pub fn new(
        tasks: usize,
        messages_per_task_to_wait: usize,
        expected_messages_to_consume_to_wait: Option<usize>,
    ) -> (r: MessageBarrier)
        ensures
            r.tasks_of() == tasks,
            r.quota() == messages_per_task_to_wait,
            r.sent() == 0,
            r.consumed() == 0,
            r.counters_ok(),
            forall|k: int| 0 <= k < tasks ==> r.sent_per_task()[k] == 0,
            forall|k: int| 0 <= k < tasks ==> r.consumed_per_task()[k] == 0,
            r.expected_of() == expected_messages_to_consume_to_wait,
    {
        MessageBarrier {
            tasks,
            messages_per_task_to_wait,
            total_sent_per_task: vstd_vec_zeroes(tasks),
            total_sent: 0,
            total_consumed: 0,
            total_consumed_per_task: vstd_vec_zeroes(tasks),
            expected_messages_to_consume_to_wait,
        }
    }

    pub closed spec fn tasks_of(&self) -> usize {
        self.tasks
    }

    pub closed spec fn quota(&self) -> usize {
        self.messages_per_task_to_wait
    }

    pub closed spec fn sent(&self) -> usize {
        self.total_sent
    }

    pub closed spec fn consumed(&self) -> usize {
        self.total_consumed
    }

    pub closed spec fn sent_per_task(&self) -> Seq<usize> {
        self.total_sent_per_task@
    }

    pub closed spec fn consumed_per_task(&self) -> Seq<usize> {
        self.total_consumed_per_task@
    }

    /// The counters have one slot per task.
    pub open spec fn counters_ok(&self) -> bool {
        &&& self.sent_per_task().len() == self.tasks_of()
        &&& self.consumed_per_task().len() == self.tasks_of()
    }

    /// Whether the whole round has been sent and consumed, so the barrier
    /// opens again.
    pub open spec fn round_complete(&self) -> bool {
        self.sent() == self.consumed() && self.quota() * self.tasks_of() == self.sent()
    }

    /// Records one generated message of `origin`.
    pub fn record_sent(&mut self, origin: usize)
        requires
            old(self).counters_ok(),
            origin < old(self).tasks_of(),
            old(self).sent() < usize::MAX,
            old(self).sent_per_task()[origin as int] < usize::MAX,
        ensures
            final(self).counters_ok(),
            final(self).tasks_of() == old(self).tasks_of(),
            final(self).quota() == old(self).quota(),
            final(self).sent() == old(self).sent() + 1,
            final(self).sent_per_task()[origin as int] == old(self).sent_per_task()[origin as int]
                + 1,
            final(self).consumed() == old(self).consumed(),
    {
        self.total_sent = self.total_sent + 1;
        let v = self.total_sent_per_task[origin];
        self.total_sent_per_task[origin] = v + 1;
    }

    /// Records one consumed message of `task`; once everything sent was
    /// consumed and every task reached its quota, all counters reset.
    pub fn record_consumed(&mut self, task: usize) -> (reset: bool)
        requires
            old(self).counters_ok(),
            task < old(self).tasks_of(),
            old(self).consumed() < usize::MAX,
            old(self).consumed_per_task()[task as int] < usize::MAX,
            old(self).quota() * old(self).tasks_of() <= usize::MAX,
        ensures
            final(self).counters_ok(),
            final(self).tasks_of() == old(self).tasks_of(),
            final(self).quota() == old(self).quota(),
            reset <==> (old(self).sent() == old(self).consumed() + 1 && old(self).quota() * old(
                self,
            ).tasks_of() == old(self).sent()),
            reset ==> final(self).sent() == 0 && final(self).consumed() == 0,
            !reset ==> final(self).consumed() == old(self).consumed() + 1 && final(self).sent()
                == old(self).sent(),
    {
        self.total_consumed = self.total_consumed + 1;
        let v = self.total_consumed_per_task[task];
        self.total_consumed_per_task[task] = v + 1;
        let quota_total = self.messages_per_task_to_wait * self.tasks;
        if self.total_sent == self.total_consumed && quota_total == self.total_sent {
            self.total_sent = 0;
            self.total_consumed = 0;
            self.total_sent_per_task = vstd_vec_zeroes(self.tasks);
            self.total_consumed_per_task = vstd_vec_zeroes(self.tasks);
            true
        } else {
            false
        }
    }

    /// Whether `task` may still generate in the current round.
    pub fn should_generate(&self, task: usize) -> (r: bool)
        requires
            self.counters_ok(),
            task < self.tasks_of(),
        ensures
            r == (self.sent_per_task()[task as int] < self.quota()),
    {
        self.total_sent_per_task[task] < self.messages_per_task_to_wait
    }

    pub fn number_tasks(&self) -> (r: usize)
        ensures
            r == self.tasks_of(),
    {
        self.tasks
    }

    /// Whether a task that exhausted its quota still waits for data: only
    /// when an expected consumption count is configured and not yet reached.
    pub fn is_waiting_for_data(&self, task: usize) -> (r: bool)
        requires
            self.counters_ok(),
            task < self.tasks_of(),
        ensures
            r == (self.expected_of() matches Some(expected)
                && self.consumed_per_task()[task as int] < expected),
    {
        match self.expected_messages_to_consume_to_wait {
            Some(expected) => self.total_consumed_per_task[task] < expected,
            None => false,
        }
    }

    pub closed spec fn expected_of(&self) -> Option<usize> {
        self.expected_messages_to_consume_to_wait
    }
}

/// A vector of zero counters, one per task.
#[verifier::loop_isolation(false)]
fn vstd_vec_zeroes(tasks: usize) -> (r: Vec<usize>)
    ensures
        r@.len() == tasks,
        forall|k: int| 0 <= k < tasks ==> r@[k] == 0,
{
    let mut r: Vec<usize> = Vec::new();
    let mut k: usize = 0;
    while k < tasks
        invariant
            k <= tasks,
            r@.len() == k,
            forall|m: int| 0 <= m < k ==> r@[m] == 0,
        decreases tasks - k,
    {
        r.push(0);
        k += 1;
    }
    r
}

/// The fields of a `MessageBarrier` configuration object.
pub struct BuildMessageBarrierCVArgs {
    pub traffic: ConfigurationValue,
    pub tasks: usize,
    pub messages_per_task_to_wait: usize,
    pub expected_messages_to_consume_to_wait: Option<usize>,
}

/// Writes a `MessageBarrier` configuration object.
pub fn build_message_barrier_cv(args: BuildMessageBarrierCVArgs) -> (r: ConfigurationValue)
    ensures
        r matches ConfigurationValue::Object(name, pairs) && name@ == "MessageBarrier"@ && {
            &&& pairs@.len() == if args.expected_messages_to_consume_to_wait is Some {
                4int
            } else {
                3int
            }
            &&& pairs@[0].0@ == "traffic"@ && pairs@[0].1 == args.traffic
            &&& pairs@[1].0@ == "tasks"@ && (pairs@[1].1 matches ConfigurationValue::Number(n)
                && n as int == crate::simple_pattern::usize_as_number(args.tasks))
            &&& pairs@[2].0@ == "messages_per_task_to_wait"@ && (pairs@[2].1
                matches ConfigurationValue::Number(n) && n as int
                == crate::simple_pattern::usize_as_number(args.messages_per_task_to_wait))
            &&& (args.expected_messages_to_consume_to_wait matches Some(v) ==> pairs@[3].0@
                == "expected_messages_to_consume_to_wait"@ && (pairs@[3].1
                matches ConfigurationValue::Number(n) && n as int
                == crate::simple_pattern::usize_as_number(v)))
        },
{
    let mut cv: Vec<(String, ConfigurationValue)> = Vec::new();
    cv.push(("traffic".to_string(), args.traffic));
    cv.push(("tasks".to_string(), usize_number(args.tasks)));
    cv.push(
        ("messages_per_task_to_wait".to_string(), usize_number(args.messages_per_task_to_wait)),
    );
    if let Some(expected) = args.expected_messages_to_consume_to_wait {
        cv.push(("expected_messages_to_consume_to_wait".to_string(), usize_number(expected)));
    }
    ConfigurationValue::Object("MessageBarrier".to_string(), cv)
}

/// The collective algorithms the traffic builders know.
pub enum MPICollectiveAlgorithm {
    /// Iterate hypercube neighbours, optionally in a configured order.
    Hypercube(Option<ConfigurationValue>),
    /// Iterate around a ring.
    Ring,
}

/// Reads a collective algorithm from a configuration object.
pub fn parse_algorithm_from_cv(configuration_value: &ConfigurationValue) -> (r: Result<
    MPICollectiveAlgorithm,
    Error,
>)
    ensures
        configuration_value matches ConfigurationValue::Object(name, _) ==> if name@
            == "Hypercube"@ {
            r matches Ok(a) && a is Hypercube
        } else if name@ == "Ring"@ {
            r matches Ok(a) && a is Ring
        } else {
            r == Err::<MPICollectiveAlgorithm, Error>(Error::UnknownName)
        },
        !(configuration_value is Object) ==> r == Err::<MPICollectiveAlgorithm, Error>(
            Error::UnknownName,
        ),
{
    if let ConfigurationValue::Object(name, pairs) = configuration_value {
        if str_eq(name.as_str(), "Hypercube") {
            // The builders iterate hypercube neighbours in their natural
            // order; a configured order is accepted and not consulted.
            Ok(MPICollectiveAlgorithm::Hypercube(None))
        } else if str_eq(name.as_str(), "Ring") {
            Ok(MPICollectiveAlgorithm::Ring)
        } else {
            Err(Error::UnknownName)
        }
    } else {
        Err(Error::UnknownName)
    }
}

/// The fields of a send-message-to-vector traffic configuration.
pub struct SendMessageToVectorCVBuilder {
    pub tasks: usize,
    pub one_to_many_pattern: ConfigurationValue,
    pub message_size: usize,
    pub rounds: usize,
}

/// Writes the traffic configuration that makes every task send one message
/// to each element of a pattern-defined set, for a number of rounds.
pub fn build_send_message_to_vector_cv(args: SendMessageToVectorCVBuilder) -> (r:
    ConfigurationValue)
    ensures
        r matches ConfigurationValue::Object(name, pairs) && name@ == "MessageTaskSpreading"@
            && pairs@.len() == 4,
{
    let mut cv: Vec<(String, ConfigurationValue)> = Vec::new();
    cv.push(("tasks".to_string(), usize_number(args.tasks)));
    cv.push(("pattern".to_string(), args.one_to_many_pattern));
    cv.push(("message_size".to_string(), usize_number(args.message_size)));
    cv.push(("rounds".to_string(), usize_number(args.rounds)));
    ConfigurationValue::Object("MessageTaskSpreading".to_string(), cv)
}

/// The fields of a credit-driven traffic-manager configuration.
pub struct BuildTrafficManagerCVArgs {
    pub tasks: usize,
    pub credits_to_activate: usize,
    pub messages_per_transition: usize,
    pub credits_per_received_message: usize,
    pub traffic: ConfigurationValue,
    pub initial_credits: ConfigurationValue,
}

/// Writes the credit-driven traffic-manager configuration.
pub fn get_traffic_manager(args: BuildTrafficManagerCVArgs) -> (r: ConfigurationValue)
    ensures
        r matches ConfigurationValue::Object(name, pairs) && name@ == "TrafficCredit"@
            && pairs@.len() == 6,
{
    let mut cv: Vec<(String, ConfigurationValue)> = Vec::new();
    cv.push(("tasks".to_string(), usize_number(args.tasks)));
    cv.push(("credits_to_activate".to_string(), usize_number(args.credits_to_activate)));
    cv.push(
        ("messages_per_transition".to_string(), usize_number(args.messages_per_transition)),
    );
    cv.push(
        (
            "credits_per_received_message".to_string(),
            usize_number(args.credits_per_received_message),
        ),
    );
    cv.push(("traffic".to_string(), args.traffic));
    cv.push(("initial_credits".to_string(), args.initial_credits));
    ConfigurationValue::Object("TrafficCredit".to_string(), cv)
}

/// The fields of a message-size-modifier configuration.
pub struct BuildMessageSizeModifierCVArgs {
    pub tasks: usize,
    pub traffic: ConfigurationValue,
    pub message_sizes: Vec<usize>,
}

/// Writes the wrapper that changes the message size at every round.
pub fn get_message_size_modifier(args: BuildMessageSizeModifierCVArgs) -> (r: ConfigurationValue)
    ensures
        r matches ConfigurationValue::Object(name, pairs) && name@ == "MessageSizeModifier"@
            && pairs@.len() == 3,
{
    let mut cv: Vec<(String, ConfigurationValue)> = Vec::new();
    cv.push(("tasks".to_string(), usize_number(args.tasks)));
    cv.push(("traffic".to_string(), args.traffic));
    cv.push(
        ("message_sizes".to_string(), crate::simple_pattern::usize_array(&args.message_sizes)),
    );
    ConfigurationValue::Object("MessageSizeModifier".to_string(), cv)
}

/// The fields of a sequenced-traffics configuration.
pub struct BuilderMessageTaskSequenceCVArgs {
    pub tasks: usize,
    pub traffics: Vec<ConfigurationValue>,
    pub messages_to_send_per_traffic: Vec<usize>,
    pub messages_to_consume_per_traffic: Option<Vec<usize>>,
}

/// Writes the wrapper that runs several traffics one after another.
pub fn get_traffic_message_task_sequence(args: BuilderMessageTaskSequenceCVArgs) -> (r:
    ConfigurationValue)
    ensures
        r matches ConfigurationValue::Object(name, pairs) && name@ == "MessageTaskSequence"@
            && pairs@.len() >= 3,
{
    let mut cv: Vec<(String, ConfigurationValue)> = Vec::new();
    cv.push(("tasks".to_string(), usize_number(args.tasks)));
    cv.push(("traffics".to_string(), ConfigurationValue::Array(args.traffics)));
    cv.push(
        (
            "messages_to_send_per_traffic".to_string(),
            crate::simple_pattern::usize_array(&args.messages_to_send_per_traffic),
        ),
    );
    if let Some(consume) = args.messages_to_consume_per_traffic {
        cv.push(
            (
                "messages_to_consume_per_traffic".to_string(),
                crate::simple_pattern::usize_array(&consume),
            ),
        );
    }
    ConfigurationValue::Object("MessageTaskSequence".to_string(), cv)
}

/// A scatter-reduce or all-gather iteration around a ring.
pub fn ring_iteration(tasks: usize, data_size: usize, iterations: usize) -> (r: Result<
    ConfigurationValue,
    Error,
>)
    ensures
        r is Ok ==> tasks > 0,
        tasks == 0 ==> r is Err,
{
    if tasks == 0 {
        return Err(Error::MismatchedSizes);
    }
    let message_size = data_size / tasks;
    let mut neighbours_vector: Vec<Vec<i32>> = Vec::new();
    let mut one_step: Vec<i32> = Vec::new();
    one_step.push(1);
    neighbours_vector.push(one_step);
    let mut sides: Vec<usize> = Vec::new();
    sides.push(tasks);
    let immediate_neighbours = immediate_neighbours_cv_builder(
        ImmediateNeighboursCVBuilder { sides, vector_neighbours: neighbours_vector, modular: true },
    );
    let rounds = match (tasks - 1).checked_mul(iterations) {
        Some(v) => v,
        None => {
            return Err(Error::SizeOutOfRange { size: iterations });
        },
    };
    let message_to_vector = build_send_message_to_vector_cv(
        SendMessageToVectorCVBuilder {
            tasks,
            one_to_many_pattern: immediate_neighbours,
            message_size,
            rounds,
        },
    );
    let mut identity_pairs: Vec<(String, ConfigurationValue)> = Vec::new();
    let initial_credits = get_candidates_selection(
        ConfigurationValue::Object("Identity".to_string(), identity_pairs),
        tasks,
    );
    Ok(
        get_traffic_manager(
            BuildTrafficManagerCVArgs {
                tasks,
                credits_to_activate: 1,
                messages_per_transition: 1,
                credits_per_received_message: 1,
                traffic: message_to_vector,
                initial_credits,
            },
        ),
    )
}

/// The base-two logarithm of a power of two.
#[verifier::loop_isolation(false)]
pub fn exact_log2(n: usize) -> (r: Option<usize>)
    ensures
        r is Some ==> n >= 1,
{
    if n == 0 {
        return None;
    }
    let mut messages: usize = 0;
    let mut p: usize = 1;
    while p < n
        invariant
            p >= 1,
            messages <= 64,
        decreases 64 - messages,
    {
        if messages >= 64 || p > usize::MAX / 2 {
            return None;
        }
        p = p * 2;
        messages += 1;
    }
    if p == n {
        Some(messages)
    } else {
        None
    }
}

/// A scatter-reduce over hypercube neighbours, halving the payload at every
/// step; the number of tasks must be a power of two.
pub fn get_scatter_reduce_hypercube(tasks: usize, data_size: usize) -> (r: Result<
    ConfigurationValue,
    Error,
>) {
    let messages = match exact_log2(tasks) {
        Some(m) => m,
        None => {
            return Err(Error::NotPowerOfTwo { size: tasks });
        },
    };
    let empty_pairs: Vec<(String, ConfigurationValue)> = Vec::new();
    let hypercube_neighbours = ConfigurationValue::Object(
        "HypercubeNeighbours".to_string(),
        empty_pairs,
    );
    let send_message_to_vector_cv = build_send_message_to_vector_cv(
        SendMessageToVectorCVBuilder {
            tasks,
            one_to_many_pattern: hypercube_neighbours,
            message_size: 0,
            rounds: 1,
        },
    );
    let identity_pairs: Vec<(String, ConfigurationValue)> = Vec::new();
    let candidates_selection = get_candidates_selection(
        ConfigurationValue::Object("Identity".to_string(), identity_pairs),
        tasks,
    );
    let traffic_manager = get_traffic_manager(
        BuildTrafficManagerCVArgs {
            tasks,
            credits_to_activate: 1,
            messages_per_transition: 1,
            credits_per_received_message: 1,
            traffic: send_message_to_vector_cv,
            initial_credits: candidates_selection,
        },
    );
    let messages_sizes = halving_sizes(data_size, messages, false);
    Ok(
        get_message_size_modifier(
            BuildMessageSizeModifierCVArgs {
                tasks,
                traffic: traffic_manager,
                message_sizes: messages_sizes,
            },
        ),
    )
}

/// The payload sizes of the halving steps, smallest last or first.
#[verifier::loop_isolation(false)]
pub fn halving_sizes(data_size: usize, steps: usize, reversed: bool) -> (r: Vec<usize>)
    ensures
        r@.len() == steps,
{
    let mut sizes: Vec<usize> = Vec::new();
    let mut current = data_size;
    let mut k: usize = 0;
    while k < steps
        invariant
            k <= steps,
            sizes@.len() == k,
        decreases steps - k,
    {
        current = current / 2;
        sizes.push(current);
        k += 1;
    }
    if reversed {
        let mut out: Vec<usize> = Vec::new();
        let mut k: usize = sizes.len();
        while k > 0
            invariant
                k <= sizes@.len(),
                out@.len() + k == sizes@.len(),
            decreases k,
        {
            k -= 1;
            out.push(sizes[k]);
        }
        out
    } else {
        sizes
    }
}

/// An all-gather over hypercube neighbours, doubling the payload at every
/// step.
pub fn get_all_gather_hypercube(
    tasks: usize,
    data_size: usize,
    neighbours_order: Option<&ConfigurationValue>,
) -> (r: Result<ConfigurationValue, Error>) {
    let messages = match exact_log2(tasks) {
        Some(m) => m,
        None => {
            return Err(Error::NotPowerOfTwo { size: tasks });
        },
    };
    let empty_pairs: Vec<(String, ConfigurationValue)> = Vec::new();
    let hypercube_neighbours = ConfigurationValue::Object(
        "HypercubeNeighbours".to_string(),
        empty_pairs,
    );
    let send_message_to_vector_cv = build_send_message_to_vector_cv(
        SendMessageToVectorCVBuilder {
            tasks,
            one_to_many_pattern: hypercube_neighbours,
            message_size: 0,
            rounds: 1,
        },
    );
    let identity_pairs: Vec<(String, ConfigurationValue)> = Vec::new();
    let candidates_selection = get_candidates_selection(
        ConfigurationValue::Object("Identity".to_string(), identity_pairs),
        tasks,
    );
    let traffic_manager = get_traffic_manager(
        BuildTrafficManagerCVArgs {
            tasks,
            credits_to_activate: 1,
            messages_per_transition: 1,
            credits_per_received_message: 1,
            traffic: send_message_to_vector_cv,
            initial_credits: candidates_selection,
        },
    );
    let messages_sizes = halving_sizes(data_size, messages, true);
    Ok(
        get_message_size_modifier(
            BuildMessageSizeModifierCVArgs {
                tasks,
                traffic: traffic_manager,
                message_sizes: messages_sizes,
            },
        ),
    )
}

/// An all-reduce as a scatter-reduce followed by an all-gather.
pub fn get_all_reduce_optimal(
    tasks: usize,
    data_size: usize,
    neighbours_order: Option<&ConfigurationValue>,
) -> (r: Result<ConfigurationValue, Error>) {
    let scatter_reduce_hypercube = match get_scatter_reduce_hypercube(tasks, data_size) {
        Ok(cv) => cv,
        Err(e) => {
            return Err(e);
        },
    };
    let all_gather_hypercube = match get_all_gather_hypercube(tasks, data_size, neighbours_order) {
        Ok(cv) => cv,
        Err(e) => {
            return Err(e);
        },
    };
    let messages_per_task = match exact_log2(tasks) {
        Some(m) => m,
        None => {
            return Err(Error::NotPowerOfTwo { size: tasks });
        },
    };
    let mut traffics: Vec<ConfigurationValue> = Vec::new();
    traffics.push(scatter_reduce_hypercube);
    traffics.push(all_gather_hypercube);
    let mut to_send: Vec<usize> = Vec::new();
    to_send.push(messages_per_task);
    to_send.push(messages_per_task);
    let mut to_consume: Vec<usize> = Vec::new();
    to_consume.push(messages_per_task);
    to_consume.push(messages_per_task);
    Ok(
        get_traffic_message_task_sequence(
            BuilderMessageTaskSequenceCVArgs {
                tasks,
                traffics,
                messages_to_send_per_traffic: to_send,
                messages_to_consume_per_traffic: Some(to_consume),
            },
        ),
    )
}

/// An all-reduce around a ring: a full scatter-reduce pass followed by a
/// full all-gather pass.
pub fn get_all_reduce_ring(tasks: usize, data_size: usize) -> (r: Result<ConfigurationValue, Error>)
    ensures
        r is Ok ==> tasks > 0,
        tasks == 0 ==> r is Err,
{
    ring_iteration(tasks, data_size, 2)
}

/// An all-to-all: every task sends a slice to every other task, over a
/// number of rounds.
pub fn get_all2all(tasks: usize, data_size: usize, rounds: usize) -> (r: Result<
    ConfigurationValue,
    Error,
>)
    ensures
        r is Ok ==> (rounds > 0 && tasks > 0),
        (rounds == 0 || tasks == 0) ==> r is Err,
        r matches Ok(cv) ==> cv matches ConfigurationValue::Object(name, _) && name@
            == "TrafficCredit"@,
{
    if rounds == 0 {
        return Err(Error::MismatchedSizes);
    }
    if tasks == 0 {
        return Err(Error::MismatchedSizes);
    }
    let total_messages = match (tasks - 1).checked_mul(rounds) {
        Some(v) => v,
        None => {
            return Err(Error::SizeOutOfRange { size: rounds });
        },
    };
    let message_size = (data_size / tasks) / rounds;
    let empty_pairs: Vec<(String, ConfigurationValue)> = Vec::new();
    let all_neighbours = ConfigurationValue::Object("AllNeighbours".to_string(), empty_pairs);
    let send_message_to_vector_cv = build_send_message_to_vector_cv(
        SendMessageToVectorCVBuilder {
            tasks,
            one_to_many_pattern: all_neighbours,
            message_size,
            rounds,
        },
    );
    let identity_pairs: Vec<(String, ConfigurationValue)> = Vec::new();
    let candidates_selection = get_candidates_selection(
        ConfigurationValue::Object("Identity".to_string(), identity_pairs),
        tasks,
    );
    Ok(
        get_traffic_manager(
            BuildTrafficManagerCVArgs {
                tasks,
                credits_to_activate: 1,
                messages_per_transition: total_messages,
                credits_per_received_message: 0,
                traffic: send_message_to_vector_cv,
                initial_credits: candidates_selection,
            },
        ),
    )
}

/// A traffic record with no state of its own: its constructor assembles the
/// configuration of the requested collective.
pub struct MPICollective {}

impl MPICollective {
    /// Writes the configuration of the named collective for the surrounding
    /// simulator.
    pub fn new(
        traffic: &str,
        tasks: usize,
        data_size: usize,
        algorithm: MPICollectiveAlgorithm,
        rounds: usize,
    ) -> (r: Result<ConfigurationValue, Error>) {
        if str_eq(traffic, "ScatterReduce") {
            match algorithm {
                MPICollectiveAlgorithm::Hypercube(_) => get_scatter_reduce_hypercube(
                    tasks,
                    data_size,
                ),
                MPICollectiveAlgorithm::Ring => ring_iteration(tasks, data_size, 1),
            }
        } else if str_eq(traffic, "AllGather") {
            match algorithm {
                MPICollectiveAlgorithm::Hypercube(neighbours_order) => get_all_gather_hypercube(
                    tasks,
                    data_size,
                    neighbours_order.as_ref(),
                ),
                MPICollectiveAlgorithm::Ring => ring_iteration(tasks, data_size, 1),
            }
        } else if str_eq(traffic, "AllReduce") {
            match algorithm {
                MPICollectiveAlgorithm::Hypercube(neighbours_order) => get_all_reduce_optimal(
                    tasks,
                    data_size,
                    neighbours_order.as_ref(),
                ),
                MPICollectiveAlgorithm::Ring => get_all_reduce_ring(tasks, data_size),
            }
        } else if str_eq(traffic, "All2All") {
            get_all2all(tasks, data_size, rounds)
        } else {
            Err(Error::UnknownName)
        }
    }
}

} // verus!
