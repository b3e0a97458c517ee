//! The core of a cooperative actor runtime: process identifiers and their
//! registry, signal inboxes and selective receive, link sets, run queues
//! with work stealing and load balancing, timers and supervision.
//!
//! Each part is a sequential state machine with a contract; an embedder
//! supplies the threads, the clock and the futures around it.

// Identities, reasons and what the inbox carries.
mod pid;
mod exit;

// Mailboxes and per-process state.
mod unsorted_set;
mod queue;
mod inbox;
mod message_queue;
mod metadata;
mod control_block;
mod actor;

// Scheduling.
mod registry;
mod migration;
mod balance;
mod worker;
mod scheduler;
mod system;

// Time, supervision and the actor-facing helpers.
mod timer;
mod timestamp;
mod supervisor;
mod context;
mod text;
mod logger;

pub use pid::{Pid, INVALID_PID};
pub use exit::{Envelope, Exit, RecvError, Signal, TrapExitMessage};

pub use unsorted_set::{has_key, keys_distinct, lemma_contains_after_push, lemma_contains_after_remove, lemma_contains_has_key, lemma_replace, lemma_has_key_push, lemma_remove_keeps_distinct, Keyed, UnsortedSet};
pub use queue::Queue;
pub use inbox::{Inbox, QUEUE_SIZE};
pub use message_queue::{deterministic, first_match, lemma_receive_after_send, lemma_removal_keeps_order, MessageQueue};
pub use metadata::{MetaKeyValue, MetaValue};
pub use control_block::{ActorControlBlock, MAX_LINKS, MAX_META_KV};
pub use actor::{lemma_send_then_receive, links_agree_except, same_but_links, signal_applied, ActorState, HydratedActor};

pub use registry::{name_lookup, shard_of, Registry, Shard, Table, ToPid, NUM_SHARDS};
pub use migration::{lemma_pack_unpack, Migration, Mode, Parameters, MAX_BALANCE, MAX_TARGET};
pub use balance::{
    clamp_balance, comes_before, covers, is_plan, plan_balance, planned, sorted_workers, split_at, sum_lengths,
    threshold, BALANCE_MARGIN,
};
pub use worker::{RunQueue, Worker, REDUCTIONS};
pub use scheduler::{counters, counters_kept, Scheduler, MAX_WORKERS};
pub use system::{migrated, ring_between, lemma_pop, lemma_push_fresh, no_dups, popped, pushed, queued, System};

pub use timer::{is_earliest, lemma_delay_respected, Timer, TimerAction, TimerEntry};
pub use timestamp::{
    days_before_month, days_before_year, is_leap_spec, iso8601, max_unix_seconds, month_len, unix_seconds, valid,
    year_days, Timestamp,
};
pub use supervisor::{
    affected_pids, first_child, has_child, is_affected_spec, marked, revived, settled, should_restart_spec,
    stopped_indices, Child, ChildState, RestartPolicy, Strategy, SupervisorAction, SupervisorActor, SupervisorState,
};
pub use context::{pending_once, recv_matching, sleep_elapsed, CachePadded, GlobalContext, PendingOnce, MAX_BUDGET};
pub use text::{decimal, digit_char, padded, push_decimal, push_digit, push_padded};
pub use logger::{find_close, flush, lookup_value, meta_text, parse, push_meta_text, render, Level};
