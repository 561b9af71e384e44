use canopy::text::{lower_char, white_space};
use canopy::safety::SafetyMode;
use canopy::session::{caller_mode, OperatorSession, HONOUR_GRACE};

#[test]
fn the_ladder_holds_downwards() {
    assert!(SafetyMode::Danger.permits(SafetyMode::Write));
    assert!(SafetyMode::Danger.permits(SafetyMode::ReadOnly));
    assert!(SafetyMode::Write.permits(SafetyMode::ReadOnly));
    assert!(SafetyMode::Write.permits(SafetyMode::Write));
    assert!(!SafetyMode::Write.permits(SafetyMode::Danger));
    assert!(!SafetyMode::ReadOnly.permits(SafetyMode::Write));
    assert!(!SafetyMode::ReadOnly.permits(SafetyMode::Danger));
}

#[test]
fn default_is_read_only() {
    assert_eq!(SafetyMode::default(), SafetyMode::ReadOnly);
}

#[test]
fn wire_and_parse_round_trip() {
    for (mode, wire) in [(SafetyMode::ReadOnly, "read-only"), (SafetyMode::Write, "write"), (SafetyMode::Danger, "danger")] {
        assert_eq!(mode.to_string(), wire);
        assert_eq!(wire.parse::<SafetyMode>().unwrap(), mode);
    }
    // Read back trimmed and without regard to case, with two older spellings.
    assert_eq!(" Danger ".parse::<SafetyMode>().unwrap(), SafetyMode::Danger);
    assert_eq!("READ_ONLY".parse::<SafetyMode>().unwrap(), SafetyMode::ReadOnly);
    assert_eq!("readonly".parse::<SafetyMode>().unwrap(), SafetyMode::ReadOnly);
    assert!("root".parse::<SafetyMode>().is_err());
}

const SEC: i128 = 1_000_000_000;
const MIN: i128 = 60 * SEC;
/// An instant in 2025.
const NOW: i128 = 1_750_000_000 * SEC;

fn session(mode: SafetyMode, raise_expires_at: Option<i128>) -> OperatorSession {
    OperatorSession {
        id: 1,
        login: "op@bes.au".into(),
        mode,
        raise_expires_at,
        last_seen_at: NOW,
        created_at: NOW,
    }
}

#[test]
fn a_read_only_session_is_read_only() {
    assert_eq!(session(SafetyMode::ReadOnly, None).effective_mode(NOW), SafetyMode::ReadOnly);
}

#[test]
fn a_live_raise_holds_at_its_mode() {
    let expires = NOW + 5 * MIN;
    assert_eq!(session(SafetyMode::Danger, Some(expires)).effective_mode(NOW), SafetyMode::Danger);
}

#[test]
fn a_lapsed_raise_reads_as_read_only_but_within_grace_still_holds() {
    // Just inside the honour grace past expiry: still the raised mode.
    let just_lapsed = NOW - 30 * SEC;
    assert_eq!(session(SafetyMode::Write, Some(just_lapsed)).effective_mode(NOW), SafetyMode::Write);

    // Past the grace: read-only, whatever mode is stored.
    let long_lapsed = NOW - 2 * MIN;
    assert_eq!(session(SafetyMode::Write, Some(long_lapsed)).effective_mode(NOW), SafetyMode::ReadOnly);
}

#[test]
fn a_stored_raise_without_an_expiry_is_treated_as_lapsed() {
    assert_eq!(session(SafetyMode::Danger, None).effective_mode(NOW), SafetyMode::ReadOnly);
}

#[test]
fn the_grace_ends_exactly_a_minute_past_expiry() {
    let expires = NOW - HONOUR_GRACE;
    assert_eq!(session(SafetyMode::Write, Some(expires)).effective_mode(NOW), SafetyMode::Write);
    assert_eq!(session(SafetyMode::Write, Some(expires - 1)).effective_mode(NOW), SafetyMode::ReadOnly);
}

#[test]
fn a_session_is_usable_only_by_its_own_login() {
    let s = session(SafetyMode::Danger, Some(NOW + MIN));
    assert_eq!(caller_mode(Some(&s), &"op@bes.au".to_owned(), NOW), SafetyMode::Danger);
    assert_eq!(caller_mode(Some(&s), &"else@bes.au".to_owned(), NOW), SafetyMode::ReadOnly);
    assert_eq!(caller_mode(None, &"op@bes.au".to_owned(), NOW), SafetyMode::ReadOnly);
}

#[test]
fn a_spelling_is_read_past_any_unicode_whitespace_and_ascii_case() {
    assert_eq!("\u{3000}\tWrItE\u{a0}\n".parse::<SafetyMode>().unwrap(), SafetyMode::Write);
    assert!("wri te".parse::<SafetyMode>().is_err());
    assert!("DANGER!".parse::<SafetyMode>().is_err());
    // Only ASCII letters are lowered: a dotted capital I is not an `i`.
    assert!("\u{130}".parse::<SafetyMode>().is_err());
}

#[test]
fn white_space_and_lowering_follow_std() {
    for c in ['\t', '\n', '\r', ' ', '\u{85}', '\u{a0}', '\u{1680}', '\u{2000}', '\u{200a}', '\u{2028}', '\u{3000}', 'a', '_', '\u{200b}', '\u{feff}'] {
        assert_eq!(white_space(c), c.is_whitespace(), "{c:?}");
    }
    for c in ['A', 'Z', 'a', 'z', '@', '[', '\u{c0}', '\u{130}', '1'] {
        assert_eq!(lower_char(c), c.to_ascii_lowercase(), "{c:?}");
    }
}
