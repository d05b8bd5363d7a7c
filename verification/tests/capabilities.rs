use replai::capabilities::{FeaturePolicy, FeatureSupport, TerminalConfig, TerminalFacts};
use replai::event::Error;
use replai::presentation::Theme;

#[test]
fn admission_distinguishes_required_optional_and_explicit_plain() {
    let mut c = TerminalConfig {
        facts: TerminalFacts::assumed_vt(),
        styling: FeaturePolicy::Preferred,
        bracketed_paste: FeaturePolicy::Preferred,
        theme: Theme::new(true, false, None),
    };
    assert!(c.resolve().unwrap().1.bracketed_paste);
    c.facts.bracketed_paste = FeatureSupport::Unavailable;
    assert!(!c.resolve().unwrap().1.bracketed_paste);
    c.bracketed_paste = FeaturePolicy::Required;
    assert!(matches!(c.resolve(), Err(Error::CapabilityMismatch(_))));
    c.bracketed_paste = FeaturePolicy::Disabled;
    c.facts.cursor = FeatureSupport::Unknown;
    assert!(c.resolve().is_err());
    c.facts.cursor = FeatureSupport::Supported;
    c.theme = Theme::new(true, true, None);
    assert!(!c.resolve().unwrap().1.styling);
    c.styling = FeaturePolicy::Required;
    assert!(c.resolve().is_err());
}

#[test]
fn resolved_theme_follows_admitted_styling() {
    let c = TerminalConfig {
        facts: TerminalFacts::assumed_vt(),
        styling: FeaturePolicy::Disabled,
        bracketed_paste: FeaturePolicy::Disabled,
        theme: Theme::new(true, false, Some("xterm")),
    };
    let (theme, features) = c.resolve().unwrap();
    assert!(!theme.color);
    assert!(!features.styling && !features.bracketed_paste);
    let mut d = c;
    d.styling = FeaturePolicy::Required;
    let (theme, features) = d.resolve().unwrap();
    assert!(theme.color && features.styling);
    d.facts.erase = FeatureSupport::Unavailable;
    assert!(matches!(d.resolve(), Err(Error::CapabilityMismatch(_))));
}
