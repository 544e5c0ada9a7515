//! Competition configuration, plan compilation and version-gated
//! reconciliation of the compiled plan against persistent storage.
//!
//! A [`Configuration`] declares years, forms, genders, events and scoring
//! tiers; each event carries an [`ApplicabilityRules`] per dimension.
//! [`build_plan`] compiles it into a [`Plan`] of every active (year, gender,
//! event) combination with its initial score ledger, and
//! [`plan_reconciliation`] decides whether the store must be rebuilt from
//! that plan, and with which writes. The [`scoreboard`] module tallies the
//! points stored against that plan; [`auth`] holds the permission rules of
//! the routes that change them.

pub mod auth;
pub mod config;
pub mod plan;
pub mod procfs;
pub mod reconcile;
pub mod rules;
pub mod scoreboard;

pub use auth::{
    choose_email, AuthConfig, AuthDecision, Authentication, ProviderEmail, UserSessions, Users,
    VerifiedSession,
};
pub use config::{ConfigError, Configuration, Event, Form, IdKind, Score, Year};
pub use plan::{build_plan, EventPlan, FormPlan, LedgerEntry, Plan, ScorePlan, YearPlan};
pub use reconcile::{
    plan_reconciliation, rebuild_operations, Events, Forms, MemoryStore, ReconcileOutcome,
    Reconciliation, Scores, StoreOp, Years,
};
pub use procfs::{process_jiffies, rss_bytes, total_jiffies};
pub use rules::ApplicabilityRules;
pub use scoreboard::{scoreboard, ScoreboardTotals};
