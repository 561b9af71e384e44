//! The safety-mode ladder shared between the session's current mode and the
//! grade a handler requires.

use vstd::prelude::*;
use crate::text::{ascii_lower_spec, str_eq, to_ascii_lowercase, trim, trim_spec};

verus! {

/// A rung of the safety-mode ladder: the mode a session is in, or the grade a
/// handler requires. Ordered read-only < write < danger.
#[derive(Debug, Clone, Copy, PartialEq, Eq, Structural, Hash, PartialOrd, Ord)]
pub enum SafetyMode {
    /// Reads only. Every session begins here and returns here on its own.
    ReadOnly,
    /// Ordinary changes to Canopy's own records.
    Write,
    /// The most consequential operations, additionally gated by the danger
    /// permission.
    Danger,
}

impl SafetyMode {
    /// The rung's height on the ladder.
    pub open spec fn rung(self) -> int {
        match self {
            SafetyMode::ReadOnly => 0,
            SafetyMode::Write => 1,
            SafetyMode::Danger => 2,
        }
    }

    /// True when a session in this mode may make a request graded to `required`.
    pub fn permits(self, required: SafetyMode) -> (ok: bool)
        ensures
            ok == (self.rung() >= required.rung()),
    {
        match (self, required) {
            (SafetyMode::Danger, _) => true,
            (SafetyMode::Write, SafetyMode::Danger) => false,
            (SafetyMode::Write, _) => true,
            (SafetyMode::ReadOnly, SafetyMode::ReadOnly) => true,
            (SafetyMode::ReadOnly, _) => false,
        }
    }
}

impl Default for SafetyMode {
    fn default() -> (mode: Self)
        ensures
            mode == SafetyMode::ReadOnly,
    {
        SafetyMode::ReadOnly
    }
}

/// The wire spelling of a rung.
pub open spec fn wire_spec(mode: SafetyMode) -> Seq<char> {
    match mode {
        SafetyMode::ReadOnly => "read-only"@,
        SafetyMode::Write => "write"@,
        SafetyMode::Danger => "danger"@,
    }
}

/// The rung a spelling names: trimmed and compared without regard to ASCII
/// case, with `readonly` and `read_only` accepted for read-only.
pub open spec fn parse_spec(s: Seq<char>) -> Option<SafetyMode> {
    let t = ascii_lower_spec(trim_spec(s));
    if t == "read-only"@ || t == "readonly"@ || t == "read_only"@ {
        Some(SafetyMode::ReadOnly)
    } else if t == "write"@ {
        Some(SafetyMode::Write)
    } else if t == "danger"@ {
        Some(SafetyMode::Danger)
    } else {
        None
    }
}

/// A spelling that names no rung.
#[derive(Debug, Clone, Copy, PartialEq, Eq, Structural)]
pub struct SafetyModeFromStringError;

impl SafetyModeFromStringError {
    /// What the refusal says.
    pub fn message(&self) -> (m: &'static str)
        ensures
            m@ == "invalid safety mode"@,
    {
        "invalid safety mode"
    }
}

impl SafetyMode {
    /// The wire spelling: `read-only`, `write` or `danger`.
    pub fn as_str(self) -> (s: &'static str)
        ensures
            s@ == wire_spec(self),
    {
        match self {
            SafetyMode::ReadOnly => "read-only",
            SafetyMode::Write => "write",
            SafetyMode::Danger => "danger",
        }
    }

    /// The wire spelling, owned.
    pub fn to_string(&self) -> (s: String)
        ensures
            s@ == wire_spec(*self),
    {
        String::from_str(self.as_str())
    }

    /// Read a rung from its spelling.
    pub fn parse(s: &str) -> (r: Result<SafetyMode, SafetyModeFromStringError>)
        ensures
            r matches Ok(m) ==> parse_spec(s@) == Some(m),
            r is Err <==> parse_spec(s@) is None,
    {
        let lowered = to_ascii_lowercase(trim(s));
        let t = lowered.as_str();
        if str_eq(t, "read-only") || str_eq(t, "readonly") || str_eq(t, "read_only") {
            Ok(SafetyMode::ReadOnly)
        } else if str_eq(t, "write") {
            Ok(SafetyMode::Write)
        } else if str_eq(t, "danger") {
            Ok(SafetyMode::Danger)
        } else {
            Err(SafetyModeFromStringError)
        }
    }
}

impl core::str::FromStr for SafetyMode {
    type Err = SafetyModeFromStringError;

    fn from_str(s: &str) -> (r: Result<SafetyMode, SafetyModeFromStringError>)
        ensures
            r matches Ok(m) ==> parse_spec(s@) == Some(m),
            r is Err <==> parse_spec(s@) is None,
    {
        SafetyMode::parse(s)
    }
}

/// The ladder holds downwards: every rung permits itself and every rung
/// below it, and nothing above it.
pub proof fn law_the_ladder_holds_downwards(a: SafetyMode, b: SafetyMode, c: SafetyMode)
    ensures
        a.rung() >= a.rung(),
        a.rung() >= b.rung() && b.rung() >= c.rung() ==> a.rung() >= c.rung(),
        a.rung() >= b.rung() || b.rung() >= a.rung(),
        a.rung() >= b.rung() && b.rung() >= a.rung() ==> a == b,
        SafetyMode::Danger.rung() >= a.rung(),
        a.rung() >= SafetyMode::ReadOnly.rung(),
{
}

/// Reading back a rung's own spelling gives the rung.
pub proof fn law_the_spelling_reads_back(mode: SafetyMode)
    ensures
        parse_spec(wire_spec(mode)) == Some(mode),
{
    reveal_strlit("read-only");
    reveal_strlit("readonly");
    reveal_strlit("read_only");
    reveal_strlit("write");
    reveal_strlit("danger");
    let w = wire_spec(mode);
    assert(trim_spec(w) == w) by {
        assert(crate::text::trim_start_spec(w) == w);
        assert(crate::text::trim_end_spec(w) == w);
    }
    assert(ascii_lower_spec(w) =~= w);
}

} // verus!
