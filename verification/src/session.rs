//! Operator sessions and the safety mode each is in, and the decision every
//! graded request on the administrative surface is put through.
//!
//! An instant is a count of nanoseconds since the Unix epoch, within the range
//! a timestamp can hold.

use vstd::prelude::*;
use crate::safety::SafetyMode;
use crate::artifacts::registration::uuid_text;
use crate::text::{trim, trim_spec};

verus! {

/// How long a raise lasts from the moment it is made, in nanoseconds.
pub const RAISE_DURATION: i128 = 600_000_000_000;

/// How many sessions one login may hold at once.
pub const SESSIONS_PER_LOGIN: i64 = 10;

/// How much longer than a raise the server honours a raised grade, in
/// nanoseconds, so a request in flight as the raise ends is not refused.
pub const HONOUR_GRACE: i128 = 60_000_000_000;

/// The earliest instant a timestamp holds.
pub const TIMESTAMP_MIN: i128 = -377_705_023_201_000_000_000;

/// The latest instant a timestamp holds.
pub const TIMESTAMP_MAX: i128 = 253_402_207_200_999_999_999;

/// Whether an instant is one a timestamp can hold.
pub open spec fn in_range(t: int) -> bool {
    TIMESTAMP_MIN <= t <= TIMESTAMP_MAX
}

/// The RFC 3339 text of an instant.
pub uninterp spec fn rfc3339(t: int) -> Seq<char>;

/// `jiff::Timestamp::from_nanosecond` and its `Display`: the instant written
/// as RFC 3339 text.
#[verifier::external_body]
fn timestamp_text(t: i128) -> (s: String)
    requires
        in_range(t as int),
    ensures
        s@ == rfc3339(t as int),
{
    match jiff::Timestamp::from_nanosecond(t) {
        Ok(at) => at.to_string(),
        Err(_) => String::new(),
    }
}

/// A client session on the administrative surface.
pub struct OperatorSession {
    /// The session identifier the client carries in a request header.
    pub id: u128,
    /// The login this session belongs to.
    pub login: String,
    /// The mode recorded for the session, which may have lapsed.
    pub mode: SafetyMode,
    /// When the current raise lapses.
    pub raise_expires_at: Option<i128>,
    /// When the session was last presented.
    pub last_seen_at: i128,
    /// When the session was minted.
    pub created_at: i128,
}

/// Until when a raise expiring at `expires` is honoured. Adding the grace
/// past the last instant a timestamp holds falls back to the expiry itself.
pub open spec fn honoured_until(expires: int) -> int {
    if expires + HONOUR_GRACE <= TIMESTAMP_MAX {
        expires + HONOUR_GRACE
    } else {
        expires
    }
}

/// The mode a request is decided against at `now`: the stored mode while its
/// raise is honoured, read-only otherwise. A raise with no expiry is lapsed.
pub open spec fn effective(mode: SafetyMode, expires: Option<i128>, now: int) -> SafetyMode {
    if mode == SafetyMode::ReadOnly {
        SafetyMode::ReadOnly
    } else {
        match expires {
            Some(e) => if now <= honoured_until(e as int) {
                mode
            } else {
                SafetyMode::ReadOnly
            },
            None => SafetyMode::ReadOnly,
        }
    }
}

impl OperatorSession {
    /// The mode a request should be decided against, given the current time.
    pub fn effective_mode(&self, now: i128) -> (m: SafetyMode)
        ensures
            m == effective(self.mode, self.raise_expires_at, now as int),
    {
        if self.mode == SafetyMode::ReadOnly {
            return SafetyMode::ReadOnly;
        }
        match self.raise_expires_at {
            Some(expires_at) => {
                let deadline = if expires_at <= TIMESTAMP_MAX - HONOUR_GRACE {
                    expires_at + HONOUR_GRACE
                } else {
                    expires_at
                };
                if now <= deadline {
                    self.mode
                } else {
                    SafetyMode::ReadOnly
                }
            },
            None => SafetyMode::ReadOnly,
        }
    }
}

/// The mode a caller's presented session puts them in: read-only where no
/// session is presented, or it belongs to another login.
pub open spec fn presented_mode(session: Option<&OperatorSession>, login: Seq<char>, now: int) -> SafetyMode {
    match session {
        Some(s) => if s.login@ == login {
            effective(s.mode, s.raise_expires_at, now)
        } else {
            SafetyMode::ReadOnly
        },
        None => SafetyMode::ReadOnly,
    }
}

/// The mode the caller holds through the session it presented.
pub fn caller_mode(session: Option<&OperatorSession>, login: &String, now: i128) -> (m: SafetyMode)
    ensures
        m == presented_mode(session, login@, now as int),
{
    match session {
        Some(s) => if s.login == *login {
            s.effective_mode(now)
        } else {
            SafetyMode::ReadOnly
        },
        None => SafetyMode::ReadOnly,
    }
}

/// The state of an operator's session, as the client presents it.
pub struct SessionState {
    /// The session identifier.
    pub id: u128,
    /// The mode the session is in right now.
    pub mode: SafetyMode,
    /// When the current raise lapses, as RFC 3339 text; absent while the
    /// session is read-only.
    pub raise_expires_at: Option<String>,
}

impl SessionState {
    /// A session as the client presents it at `now`. A lapsed raise reads as
    /// read-only and shows no time left.
    pub fn of(session: &OperatorSession, now: i128) -> (st: SessionState)
        requires
            session.raise_expires_at matches Some(e) ==> in_range(e as int),
        ensures
            st.id == session.id,
            st.mode == effective(session.mode, session.raise_expires_at, now as int),
            st.mode == SafetyMode::ReadOnly ==> st.raise_expires_at is None,
            st.mode != SafetyMode::ReadOnly ==> (st.raise_expires_at matches Some(t)
                && session.raise_expires_at matches Some(e) && t@ == rfc3339(e as int)),
    {
        let mode = session.effective_mode(now);
        let shown = match mode {
            SafetyMode::ReadOnly => None,
            _ => match session.raise_expires_at {
                Some(at) => Some(timestamp_text(at)),
                None => None,
            },
        };
        SessionState { id: session.id, mode, raise_expires_at: shown }
    }
}

/// Why a request is refused at the boundary.
#[derive(Debug, Clone, Copy, PartialEq, Eq, Structural)]
pub enum Denial {
    /// The route declares no grade at all.
    Ungraded,
    /// The request needs the danger permission, which the caller lacks.
    DangerNotPermitted,
    /// The caller's session is below the grade the request needs.
    ModeTooLow { required: SafetyMode },
}

/// How a request passes the boundary before anything about the caller is
/// read.
#[derive(Debug, Clone, Copy, PartialEq, Eq, Structural)]
pub enum Passage {
    /// Through with no decision: the development identity, or a method the
    /// router will refuse on a path it serves.
    Open,
    /// Graded read-only: through without a session.
    ReadOnly,
    /// Graded above read-only: decided against the caller.
    Graded { required: SafetyMode },
}

/// How a request with grade `required` passes: the development identity
/// goes through; a route with no grade goes through only where its path is
/// graded for another method.
pub fn route(required: Option<SafetyMode>, dev_identity: bool, knows_path: bool) -> (p: Result<Passage, Denial>)
    ensures
        dev_identity ==> p == Ok::<Passage, Denial>(Passage::Open),
        !dev_identity && required is None ==> p == (if knows_path {
            Ok::<Passage, Denial>(Passage::Open)
        } else {
            Err::<Passage, Denial>(Denial::Ungraded)
        }),
        !dev_identity && required == Some(SafetyMode::ReadOnly) ==> p == Ok::<Passage, Denial>(Passage::ReadOnly),
        !dev_identity && (required matches Some(m) && m != SafetyMode::ReadOnly) ==> p == Ok::<Passage, Denial>(
            Passage::Graded { required: required->0 },
        ),
{
    if dev_identity {
        return Ok(Passage::Open);
    }
    match required {
        None => if knows_path {
            Ok(Passage::Open)
        } else {
            Err(Denial::Ungraded)
        },
        Some(SafetyMode::ReadOnly) => Ok(Passage::ReadOnly),
        Some(m) => Ok(Passage::Graded { required: m }),
    }
}

/// Whether a caller in `mode`, holding the danger permission or not, may
/// make a request graded `required`.
pub open spec fn admits(required: SafetyMode, holds_danger: bool, mode: SafetyMode) -> bool {
    mode.rung() >= required.rung() && (required == SafetyMode::Danger ==> holds_danger)
}

/// Decide a graded request against the caller: the danger permission first,
/// so an operator who can never make the request is told that rather than to
/// raise, then the session's mode.
pub fn decide(required: SafetyMode, holds_danger: bool, mode: SafetyMode) -> (r: Result<(), Denial>)
    ensures
        r is Ok <==> admits(required, holds_danger, mode),
        required == SafetyMode::Danger && !holds_danger ==> r == Err::<(), Denial>(Denial::DangerNotPermitted),
        (required != SafetyMode::Danger || holds_danger) && mode.rung() < required.rung() ==> r == Err::<(), Denial>(
            Denial::ModeTooLow { required },
        ),
{
    if required == SafetyMode::Danger && !holds_danger {
        return Err(Denial::DangerNotPermitted);
    }
    if !mode.permits(required) {
        return Err(Denial::ModeTooLow { required });
    }
    Ok(())
}

/// Why a raise is refused.
#[derive(Debug, Clone, Copy, PartialEq, Eq, Structural)]
pub enum RaiseDenial {
    /// Raising to read-only is a lowering.
    ToReadOnly,
    /// Raising to danger needs the danger permission.
    DangerNotPermitted,
}

impl RaiseDenial {
    /// What a refused lowering-by-raise tells the caller; the missing
    /// permission is reported in the error type's own words.
    pub fn message(&self) -> (m: Option<&'static str>)
        ensures
            *self == RaiseDenial::ToReadOnly ==> (m matches Some(t) && t@
                == "raising to read-only is a lowering; use lower"@),
            *self == RaiseDenial::DangerNotPermitted ==> m is None,
    {
        match self {
            RaiseDenial::ToReadOnly => Some("raising to read-only is a lowering; use lower"),
            RaiseDenial::DangerNotPermitted => None,
        }
    }
}

/// Whether a session may be raised to `mode`.
pub fn check_raise(mode: SafetyMode, holds_danger: bool) -> (r: Result<(), RaiseDenial>)
    ensures
        mode == SafetyMode::ReadOnly ==> r == Err::<(), RaiseDenial>(RaiseDenial::ToReadOnly),
        mode == SafetyMode::Danger && !holds_danger ==> r == Err::<(), RaiseDenial>(
            RaiseDenial::DangerNotPermitted,
        ),
        mode == SafetyMode::Write || (mode == SafetyMode::Danger && holds_danger) ==> r is Ok,
{
    match mode {
        SafetyMode::ReadOnly => Err(RaiseDenial::ToReadOnly),
        SafetyMode::Danger => if holds_danger {
            Ok(())
        } else {
            Err(RaiseDenial::DangerNotPermitted)
        },
        SafetyMode::Write => Ok(()),
    }
}

/// When a raise made at `now` lapses.
pub fn raise_expiry(now: i128) -> (r: Option<i128>)
    requires
        in_range(now as int),
    ensures
        now + RAISE_DURATION <= TIMESTAMP_MAX ==> r == Some((now + RAISE_DURATION) as i128),
        now + RAISE_DURATION > TIMESTAMP_MAX ==> r is None,
{
    if now <= TIMESTAMP_MAX - RAISE_DURATION {
        Some(now + RAISE_DURATION)
    } else {
        None
    }
}

/// A session never reads above the mode stored for it, and reads read-only
/// once its raise is past the grace, or where it carries no expiry.
pub proof fn law_a_raise_lapses_downwards(mode: SafetyMode, expires: Option<i128>, now: int)
    ensures
        effective(mode, expires, now).rung() <= mode.rung(),
        expires is None ==> effective(mode, expires, now) == SafetyMode::ReadOnly,
        (expires matches Some(e) && now > e + HONOUR_GRACE) ==> effective(mode, expires, now)
            == SafetyMode::ReadOnly,
        (expires matches Some(e) && now <= e) ==> effective(mode, expires, now) == mode,
{
}

/// A session of another login, or a lapsed raise, reads as read-only, so it
/// admits no request graded above read-only, whatever the permission held.
pub proof fn law_only_ones_own_live_session_reaches_a_grade(
    required: SafetyMode,
    holds_danger: bool,
    session: Option<&OperatorSession>,
    login: Seq<char>,
    now: int,
)
    requires
        required != SafetyMode::ReadOnly,
        session is None || (session matches Some(s) && (s.login@ != login || s.raise_expires_at is None
            || (s.raise_expires_at matches Some(e) && now > e + HONOUR_GRACE))),
    ensures
        presented_mode(session, login, now) == SafetyMode::ReadOnly,
        !admits(required, holds_danger, presented_mode(session, login, now)),
{
}

/// Request body for raising a session to a higher mode.
#[derive(Debug, Clone, Copy)]
pub struct RaiseArgs {
    /// The mode to raise to. Raising to read-only is a lowering.
    pub mode: SafetyMode,
}

/// How long a session may go unseen before it is retired, in nanoseconds: a
/// day.
pub const IDLE_GRACE: i128 = 86_400_000_000_000;

/// The instant before which a session unseen is retired: a day before `now`,
/// where a timestamp can hold that instant.
pub fn idle_cutoff(now: i128) -> (r: Option<i128>)
    requires
        in_range(now as int),
    ensures
        r == (if in_range(now - IDLE_GRACE) {
            Some((now - IDLE_GRACE) as i128)
        } else {
            None
        }),
{
    let cutoff = now - IDLE_GRACE;
    if cutoff < TIMESTAMP_MIN {
        None
    } else {
        Some(cutoff)
    }
}

/// The request header carrying the caller's session identifier.
pub fn session_header() -> (s: &'static str)
    ensures
        s@ == "x-canopy-session"@,
{
    "x-canopy-session"
}

/// The UUID a text spells, in any of the forms the uuid crate reads.
pub uninterp spec fn parsed_uuid(text: Seq<char>) -> Option<u128>;

/// `uuid::Uuid::parse_str`: the UUID the text spells, as an integer, or
/// `None` where it spells none. The hyphenated lowercase form of a UUID reads
/// back as that UUID.
#[verifier::external_body]
fn parse_uuid(text: &str) -> (r: Option<u128>)
    ensures
        r == parsed_uuid(text@),
        forall|id: u128| #[trigger] uuid_text(id) == text@ ==> r == Some(id),
{
    match uuid::Uuid::parse_str(text) {
        Ok(id) => Some(id.as_u128()),
        Err(_) => None,
    }
}

/// The session a request presents: the header's value, trimmed, where it
/// spells a UUID.
pub fn presented_id(header: Option<&str>) -> (r: Option<u128>)
    ensures
        header is None ==> r is None,
        header is Some ==> r == parsed_uuid(trim_spec(header.unwrap()@)),
        header is Some ==> forall|id: u128| #[trigger] uuid_text(id) == trim_spec(header.unwrap()@) ==> r == Some(id),
{
    match header {
        Some(value) => parse_uuid(trim(value)),
        None => None,
    }
}

} // verus!
