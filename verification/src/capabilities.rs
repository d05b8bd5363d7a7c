//! Minimal terminal facts and admission policy, not universal capability negotiation.
use crate::driving::InteractionFeatures;
use crate::event::Error;
use crate::presentation::Theme;
use vstd::prelude::*;

verus! {

/// Evidence posture for one terminal feature; assumptions are explicit.
#[derive(Clone, Copy, Debug, PartialEq, Eq, Structural)]
pub enum FeatureSupport {
    /// The feature is unavailable.
    Unavailable,
    /// No evidence or explicit host assumption permits this feature.
    Unknown,
    /// The host accepts a terminal-protocol assumption, not a discovery result.
    Assumed,
    /// The host supplies affirmative capability evidence.
    Supported,
}

/// A feature may be used: it is assumed or supported.
pub open spec fn admitted(s: FeatureSupport) -> bool {
    s == FeatureSupport::Assumed || s == FeatureSupport::Supported
}

impl FeatureSupport {
    fn admitted(self) -> (r: bool)
        ensures
            r == admitted(self),
    {
        match self {
            FeatureSupport::Assumed | FeatureSupport::Supported => true,
            _ => false,
        }
    }
}

/// Host policy for an optional/degradable terminal feature.
#[derive(Clone, Copy, Debug, PartialEq, Eq, Structural)]
pub enum FeaturePolicy {
    /// Do not enable the feature even when available.
    Disabled,
    /// Enable it when admitted, otherwise degrade without it.
    Preferred,
    /// Reject acquisition when the feature cannot be admitted.
    Required,
}

/// Host-supplied facts independent of environment variables or OS handles.
#[derive(Clone, Copy, Debug, PartialEq, Eq, Structural)]
pub struct TerminalFacts {
    /// Cursor movement needed for the editing surface.
    pub cursor: FeatureSupport,
    /// Erase operations needed to preserve the editing surface.
    pub erase: FeatureSupport,
    /// Bracketed-paste protocol mode.
    pub bracketed_paste: FeatureSupport,
    /// Semantic foreground/intensity styling.
    pub styling: FeatureSupport,
}

impl TerminalFacts {
    /// Explicitly assume the existing VT interaction protocol. This is not probing.
    pub fn assumed_vt() -> (r: Self)
        ensures
            r.cursor == FeatureSupport::Assumed,
            r.erase == FeatureSupport::Assumed,
            r.bracketed_paste == FeatureSupport::Assumed,
            r.styling == FeatureSupport::Assumed,
    {
        TerminalFacts {
            cursor: FeatureSupport::Assumed,
            erase: FeatureSupport::Assumed,
            bracketed_paste: FeatureSupport::Assumed,
            styling: FeatureSupport::Assumed,
        }
    }
}

/// Admission configuration: cursor and erase are required; styling and paste
/// have independent policies.
#[derive(Clone, Copy, Debug)]
pub struct TerminalConfig {
    /// Terminal facts or explicit assumptions provided by the host.
    pub facts: TerminalFacts,
    /// Optional semantic styling policy.
    pub styling: FeaturePolicy,
    /// Optional bracketed-paste mode policy.
    pub bracketed_paste: FeaturePolicy,
    /// Semantic palette; an explicitly plain theme stays plain.
    pub theme: Theme,
}

/// Whether a feature is enabled under `policy`, or `None` when it is required
/// but not admitted.
pub open spec fn feature_spec(support: FeatureSupport, policy: FeaturePolicy) -> Option<bool> {
    match policy {
        FeaturePolicy::Disabled => Some(false),
        FeaturePolicy::Preferred => Some(admitted(support)),
        FeaturePolicy::Required => if admitted(support) { Some(true) } else { None },
    }
}

fn feature(support: FeatureSupport, policy: FeaturePolicy) -> (r: Result<bool, Error>)
    ensures
        match feature_spec(support, policy) {
            Some(b) => r matches Ok(x) && x == b,
            None => r matches Err(e) && e is CapabilityMismatch,
        },
{
    match policy {
        FeaturePolicy::Disabled => Ok(false),
        FeaturePolicy::Preferred => Ok(support.admitted()),
        FeaturePolicy::Required => {
            if support.admitted() {
                Ok(true)
            } else {
                Err(Error::CapabilityMismatch("required terminal feature unavailable"))
            }
        },
    }
}

/// Whether configuration `c` admits a terminal, and with which styling and paste.
pub open spec fn resolution(c: TerminalConfig) -> Option<(bool, bool)> {
    if !admitted(c.facts.cursor) || !admitted(c.facts.erase) {
        None
    } else if c.styling == FeaturePolicy::Required && !c.theme.color {
        None
    } else {
        match (feature_spec(c.facts.styling, c.styling), feature_spec(c.facts.bracketed_paste, c.bracketed_paste)) {
            (Some(s), Some(p)) => Some((s && c.theme.color, p)),
            _ => None,
        }
    }
}

impl TerminalConfig {
    /// Resolve required/optional features without acquiring a terminal or doing I/O.
    /// Unknown/unavailable cursor or erase always fails; optional loss is explicit
    /// in the returned features. A host-supplied plain theme disables styling.
    pub fn resolve(self) -> (r: Result<(Theme, InteractionFeatures), Error>)
        ensures
            match resolution(self) {
                Some((styling, paste)) => r matches Ok((t, f)) && f.styling == styling && f.bracketed_paste == paste
                    && t.color == styling,
                None => r matches Err(e) && e is CapabilityMismatch,
            },
    {
        if !self.facts.cursor.admitted() || !self.facts.erase.admitted() {
            return Err(Error::CapabilityMismatch("interactive cursor and erase support required"));
        }
        if self.styling == FeaturePolicy::Required && !self.theme.color {
            return Err(Error::CapabilityMismatch("required styling conflicts with a plain theme"));
        }
        let styling = match feature(self.facts.styling, self.styling) {
            Ok(s) => s && self.theme.color,
            Err(e) => return Err(e),
        };
        let bracketed_paste = match feature(self.facts.bracketed_paste, self.bracketed_paste) {
            Ok(p) => p,
            Err(e) => return Err(e),
        };
        let mut theme = self.theme;
        theme.color = styling;
        Ok((theme, InteractionFeatures { styling, bracketed_paste }))
    }
}

} // verus!
