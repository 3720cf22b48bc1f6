//! When cached capability evidence must be re-established before resumed work is planned.
//!
//! Evidence proven at one moment, against one URL, is not evidence about a different moment or a
//! different URL. Four triggers ask for a fresh probe; everything else, transient failures in
//! particular, must not: a validator taken from a retry's own response would match whatever the
//! server is serving now.

use crate::remote::{RangeSupport, RemoteObject};
use crate::text;
use crate::time::{Duration, Timestamp};
use vstd::prelude::*;

verus! {

/// How long capability evidence stays usable without re-probing, in seconds: fifteen minutes.
pub const CAPABILITY_FRESHNESS: u64 = 900;

/// Why cached capability evidence can no longer be trusted.
#[derive(Debug, PartialEq, Eq)]
pub enum ReprobeTrigger<T = String> {
    /// The user supplied a refreshed URL, so the cached evidence is superseded by intent.
    RefreshedUrlSupplied {
        /// The URL the user supplied.
        url: T,
    },
    /// The URL about to be fetched is not the one the evidence was proven against.
    FinalUrlChanged {
        /// The final URL the probe recorded.
        recorded: T,
        /// The URL this resume would fetch.
        planned: T,
    },
    /// A worker observed a status that the recorded capabilities say should not happen.
    StatusContradictsCapabilities {
        /// The status that was observed.
        status: u16,
        /// Which recorded claim it contradicts.
        reason: T,
    },
    /// The evidence is older than the freshness window, or its age cannot be determined.
    FreshnessWindowElapsed {
        /// How long ago the probe ran; just over the window when the clock moved backwards.
        elapsed: Duration,
        /// The window in force.
        window: Duration,
    },
}

impl View for ReprobeTrigger<String> {
    type V = ReprobeTrigger<Seq<char>>;

    open spec fn view(&self) -> ReprobeTrigger<Seq<char>> {
        match *self {
            ReprobeTrigger::RefreshedUrlSupplied { url } => ReprobeTrigger::RefreshedUrlSupplied {
                url: url@,
            },
            ReprobeTrigger::FinalUrlChanged { recorded, planned } =>
                ReprobeTrigger::FinalUrlChanged { recorded: recorded@, planned: planned@ },
            ReprobeTrigger::StatusContradictsCapabilities { status, reason } =>
                ReprobeTrigger::StatusContradictsCapabilities { status, reason: reason@ },
            ReprobeTrigger::FreshnessWindowElapsed { elapsed, window } =>
                ReprobeTrigger::FreshnessWindowElapsed { elapsed, window },
        }
    }
}

/// The mathematical reading of a list of triggers.
pub open spec fn named(triggers: Seq<ReprobeTrigger>) -> Seq<ReprobeTrigger<Seq<char>>> {
    triggers.map_values(|trigger: ReprobeTrigger| trigger@)
}

/// Everything known at the moment a resume is about to be planned.
#[derive(Clone, Copy, Debug)]
pub struct ResumePlan<'a> {
    /// The capability evidence recorded when the existing bytes were fetched.
    pub recorded: &'a RemoteObject,
    /// The current time.
    pub now: Timestamp,
    /// The URL this resume would fetch.
    pub planned_url: &'a str,
    /// A URL the user supplied to replace a stale one.
    pub refreshed_url: Option<&'a str>,
    /// The status a worker last observed, when one was observed at all.
    pub last_observed_status: Option<u16>,
}

/// Which recorded claim a status contradicts, if any. Only statuses that say something about
/// capabilities count.
pub open spec fn contradicts(status: u16, support: RangeSupport) -> Option<Seq<char>> {
    if status == 200 && support is Proven {
        Some("range support was proven but the server answered a ranged request with 200"@)
    } else if status == 416 {
        Some("the server rejected a range the recorded length says exists"@)
    } else if status == 401 || status == 403 || status == 410 {
        Some("the URL or credential that produced the recorded evidence no longer applies"@)
    } else {
        None
    }
}

/// Which recorded claim a status contradicts, if any.
pub fn contradiction(status: u16, support: &RangeSupport) -> (reason: Option<&'static str>)
    ensures
        text::viewed(reason) == contradicts(status, *support),
{
    if status == 200 && support.is_proven() {
        Some("range support was proven but the server answered a ranged request with 200")
    } else if status == 416 {
        Some("the server rejected a range the recorded length says exists")
    } else if status == 401 || status == 403 || status == 410 {
        Some("the URL or credential that produced the recorded evidence no longer applies")
    } else {
        None
    }
}

/// Decides whether capability evidence must be re-established before a resume is planned.
#[derive(Clone, Copy, Debug, PartialEq, Eq, Structural)]
pub struct ReprobePolicy {
    /// The freshness window in force.
    pub freshness: Duration,
}

impl Default for ReprobePolicy {
    /// The standard freshness window.
    fn default() -> (policy: Self)
        ensures
            policy == (ReprobePolicy { freshness: Duration::of_secs(CAPABILITY_FRESHNESS) }),
    {
        ReprobePolicy { freshness: Duration::from_secs(CAPABILITY_FRESHNESS) }
    }
}

impl ReprobePolicy {
    /// How long ago the evidence was gathered. A probe that lies in the future has no knowable
    /// age and counts as just over the window.
    pub open spec fn age(self, probed_at: Timestamp, now: Timestamp) -> Duration {
        match now.spec_since(probed_at) {
            Some(elapsed) => elapsed,
            None => Duration { nanos: (self.freshness.nanos + 1) as u128 },
        }
    }

    /// Every trigger that applies to a resume that would fetch `planned`, in a fixed order.
    pub open spec fn reasons(
        self,
        recorded: RemoteObject,
        now: Timestamp,
        planned: Seq<char>,
        refreshed: Option<Seq<char>>,
        last_observed_status: Option<u16>,
    ) -> Seq<ReprobeTrigger<Seq<char>>> {
        let supplied = match refreshed {
            Some(url) => seq![ReprobeTrigger::RefreshedUrlSupplied { url }],
            None => Seq::empty(),
        };
        let moved = if planned != recorded.final_url@ {
            seq![
                ReprobeTrigger::FinalUrlChanged { recorded: recorded.final_url@, planned },
            ]
        } else {
            Seq::empty()
        };
        let contradicted = match last_observed_status {
            Some(status) => match contradicts(status, recorded.range_support) {
                Some(reason) => seq![
                    ReprobeTrigger::StatusContradictsCapabilities { status, reason },
                ],
                None => Seq::empty(),
            },
            None => Seq::empty(),
        };
        let age = self.age(recorded.probed_at, now);
        let stale = if age.nanos > self.freshness.nanos {
            seq![
                ReprobeTrigger::FreshnessWindowElapsed { elapsed: age, window: self.freshness },
            ]
        } else {
            Seq::empty()
        };
        supplied + moved + contradicted + stale
    }

    /// Every trigger that applies to a plan, in a fixed order.
    pub open spec fn due(self, plan: ResumePlan<'_>) -> Seq<ReprobeTrigger<Seq<char>>> {
        self.reasons(
            *plan.recorded,
            plan.now,
            plan.planned_url@,
            text::viewed(plan.refreshed_url),
            plan.last_observed_status,
        )
    }

    /// A policy with the given freshness window.
    pub fn new(freshness: Duration) -> (policy: Self)
        ensures
            policy == (ReprobePolicy { freshness }),
    {
        ReprobePolicy { freshness }
    }

    /// The freshness window in force.
    pub fn freshness(&self) -> (window: Duration)
        ensures
            window == self.freshness,
    {
        self.freshness
    }

    /// Whether a re-probe is required before this resume may be planned.
    pub fn is_required(&self, plan: &ResumePlan<'_>) -> (required: bool)
        requires
            self.freshness.nanos < u128::MAX,
        ensures
            required == (self.due(*plan).len() > 0),
    {
        let triggers = self.triggers(plan);
        proof {
            assert(named(triggers@).len() == triggers@.len());
        }
        triggers.len() > 0
    }

    /// Every trigger that applies.
    ///
    /// All of them, not the first: a caller that logs why it re-probed should not be told half
    /// the reason. A supplied refresh counts even when its text equals the recorded URL.
    pub fn triggers(&self, plan: &ResumePlan<'_>) -> (triggers: Vec<ReprobeTrigger>)
        requires
            self.freshness.nanos < u128::MAX,
        ensures
            named(triggers@) == self.due(*plan),
    {
        let mut triggers: Vec<ReprobeTrigger> = Vec::new();
        let ghost mut so_far: Seq<ReprobeTrigger<Seq<char>>> = Seq::empty();
        proof {
            assert(named(triggers@) =~= so_far);
        }
        if let Some(url) = plan.refreshed_url {
            triggers.push(ReprobeTrigger::RefreshedUrlSupplied { url: url.to_owned() });
            proof {
                so_far = so_far.push(ReprobeTrigger::RefreshedUrlSupplied { url: url@ });
                assert(named(triggers@) =~= so_far);
            }
        }
        if !text::same(plan.planned_url, plan.recorded.final_url.as_str()) {
            triggers.push(
                ReprobeTrigger::FinalUrlChanged {
                    recorded: plan.recorded.final_url.clone(),
                    planned: plan.planned_url.to_owned(),
                },
            );
            proof {
                so_far = so_far.push(
                    ReprobeTrigger::FinalUrlChanged {
                        recorded: plan.recorded.final_url@,
                        planned: plan.planned_url@,
                    },
                );
                assert(named(triggers@) =~= so_far);
            }
        }
        if let Some(status) = plan.last_observed_status {
            if let Some(reason) = contradiction(status, &plan.recorded.range_support) {
                triggers.push(
                    ReprobeTrigger::StatusContradictsCapabilities {
                        status,
                        reason: reason.to_owned(),
                    },
                );
                proof {
                    so_far = so_far.push(
                        ReprobeTrigger::StatusContradictsCapabilities { status, reason: reason@ },
                    );
                    assert(named(triggers@) =~= so_far);
                }
            }
        }
        let elapsed: Duration = match plan.now.since(plan.recorded.probed_at) {
            Some(elapsed) => elapsed,
            None => Duration { nanos: self.freshness.nanos + 1 },
        };
        if elapsed.nanos > self.freshness.nanos {
            triggers.push(
                ReprobeTrigger::FreshnessWindowElapsed { elapsed, window: self.freshness },
            );
            proof {
                so_far = so_far.push(
                    ReprobeTrigger::FreshnessWindowElapsed { elapsed, window: self.freshness },
                );
                assert(named(triggers@) =~= so_far);
            }
        }
        proof {
            assert(so_far =~= self.due(*plan));
        }
        triggers
    }
}

/// The status says that the server is unwell, not that its capabilities were recorded wrongly.
pub open spec fn is_transient(status: u16) -> bool {
    status == 408 || status == 425 || status == 429 || 500 <= status <= 599
}

/// A resume of unchanged evidence within its window, after nothing but a transient failure, asks
/// for no probe.
pub proof fn law_a_transient_failure_does_not_discard_the_evidence(
    policy: ReprobePolicy,
    plan: ResumePlan<'_>,
)
    requires
        plan.refreshed_url is None,
        plan.planned_url@ == plan.recorded.final_url@,
        plan.recorded.probed_at.nanos <= plan.now.nanos,
        plan.now.nanos - plan.recorded.probed_at.nanos <= policy.freshness.nanos,
        plan.last_observed_status is Some ==> is_transient(plan.last_observed_status->0),
    ensures
        policy.due(plan).len() == 0,
{
}

/// Each of the four triggers asks for a probe on its own, whatever the others say.
pub proof fn law_each_trigger_forces_a_probe(policy: ReprobePolicy, plan: ResumePlan<'_>)
    requires
        policy.freshness.nanos < u128::MAX,
        ({
            ||| plan.refreshed_url is Some
            ||| plan.planned_url@ != plan.recorded.final_url@
            ||| (plan.last_observed_status is Some && contradicts(
                plan.last_observed_status->0,
                plan.recorded.range_support,
            ) is Some)
            ||| plan.recorded.probed_at.nanos > plan.now.nanos
            ||| plan.now.nanos - plan.recorded.probed_at.nanos > policy.freshness.nanos
        }),
    ensures
        policy.due(plan).len() > 0,
{
}

/// A status contradicts what was recorded exactly if it is a whole answer where ranges were proven,
/// a range that cannot be met, or a demand for another URL or credential.
pub proof fn law_what_contradicts_the_evidence(status: u16, support: RangeSupport)
    ensures
        contradicts(status, support) is Some <==> ((status == 200 && support is Proven) || status
            == 416 || status == 401 || status == 403 || status == 410),
        contradicts(401, support) == contradicts(403, support) && contradicts(403, support)
            == contradicts(410, support),
        is_transient(status) ==> contradicts(status, support) is None,
{
}

/// Every trigger that applies is named once and with its facts, and no other is.
pub proof fn law_every_trigger_is_named(policy: ReprobePolicy, plan: ResumePlan<'_>)
    requires
        policy.freshness.nanos < u128::MAX,
    ensures
        ({
            let due = policy.due(plan);
            let refreshed = text::viewed(plan.refreshed_url);
            let moved = plan.planned_url@ != plan.recorded.final_url@;
            let status = plan.last_observed_status;
            let reason = contradicts(status->0, plan.recorded.range_support);
            let contradicted = status is Some && reason is Some;
            let backwards = plan.recorded.probed_at.nanos > plan.now.nanos;
            let stale = backwards || plan.now.nanos - plan.recorded.probed_at.nanos
                > policy.freshness.nanos;
            let supplied_at = 0int;
            let moved_at = supplied_at + (if refreshed is Some { 1int } else { 0 });
            let contradicted_at = moved_at + (if moved { 1int } else { 0 });
            let stale_at = contradicted_at + (if contradicted { 1int } else { 0 });
            &&& due.len() == stale_at + (if stale { 1int } else { 0 })
            &&& refreshed is Some ==> due[supplied_at] == (ReprobeTrigger::RefreshedUrlSupplied {
                url: refreshed->0,
            })
            &&& moved ==> due[moved_at] == (ReprobeTrigger::FinalUrlChanged {
                recorded: plan.recorded.final_url@,
                planned: plan.planned_url@,
            })
            &&& contradicted ==> due[contradicted_at] == (
            ReprobeTrigger::StatusContradictsCapabilities { status: status->0, reason: reason->0 })
            &&& stale ==> due[stale_at] is FreshnessWindowElapsed && due[stale_at]->window
                == policy.freshness && due[stale_at]->elapsed.nanos > policy.freshness.nanos
            &&& stale && !backwards ==> plan.recorded.probed_at.nanos + due[stale_at]->elapsed.nanos
                == plan.now.nanos
        }),
{
}

} // verus!
