//! Refreshing the account chip and signing out, as the decisions taken between the app's
//! reads and writes of the credential file. Every write the app makes is a
//! compare-and-mutate against the session (or the generation) it started from.
use vstd::prelude::*;
use crate::account::{
    is_signed_out, signed_out_result, signed_out_status, status_for, status_of, status_unavailable, AccountAuthError,
    AccountSignOutResult, AccountStatus, AccountTokens,
};
use crate::hosted::{
    credits_hidden, credits_signed_out, credits_upsell, credits_view_from, is_hidden, is_signed_out_view, opt_view,
    paid_plan, DesktopCredits, DesktopCreditsView,
};
use crate::text::owned;

verus! {

/// How long before expiry a credential is refreshed.
pub const REFRESH_SKEW_SECS: u64 = 120;

/// What reading the credential file leads to.
pub enum LoadStep {
    /// Nothing usable is stored: the chip is signed out.
    SignedOut,
    /// The file cannot be used: remove it unless a valid pairing replaced it meanwhile.
    ClearIfInvalid,
    /// A credential to work with.
    Tokens(AccountTokens),
}

/// The read at the start of a refresh: a corrupt file or a dead refresh token is
/// cleared; any other failure reads as signed out.
pub fn refresh_load_step(loaded: Result<Option<AccountTokens>, AccountAuthError>) -> (r: LoadStep)
    ensures
        match loaded {
            Ok(None) => r is SignedOut,
            Ok(Some(t)) => r == LoadStep::Tokens(t),
            Err(e) => if e is Corrupt || e is InvalidRefreshToken {
                r is ClearIfInvalid
            } else {
                r is SignedOut
            },
        },
{
    match loaded {
        Ok(None) => LoadStep::SignedOut,
        Ok(Some(t)) => LoadStep::Tokens(t),
        Err(e) => if e.clears_credential() {
            LoadStep::ClearIfInvalid
        } else {
            LoadStep::SignedOut
        },
    }
}

/// The read behind a status report: only a corrupt file is cleared.
pub fn status_load_step(loaded: Result<Option<AccountTokens>, AccountAuthError>) -> (r: LoadStep)
    ensures
        match loaded {
            Ok(None) => r is SignedOut,
            Ok(Some(t)) => r == LoadStep::Tokens(t),
            Err(e) => if e is Corrupt {
                r is ClearIfInvalid
            } else {
                r is SignedOut
            },
        },
{
    match loaded {
        Ok(None) => LoadStep::SignedOut,
        Ok(Some(t)) => LoadStep::Tokens(t),
        Err(AccountAuthError::Corrupt(_)) => LoadStep::ClearIfInvalid,
        Err(_) => LoadStep::SignedOut,
    }
}

/// After trying to clear an unusable credential: when a valid pairing had replaced it
/// (`Ok(false)`), the stored credential is read again; otherwise the chip is signed out.
pub fn reread_after_clear(cleared: &Result<bool, String>) -> (r: bool)
    ensures
        r == (cleared matches Ok(false)),
{
    match cleared {
        Ok(false) => true,
        _ => false,
    }
}

/// `a + b`, saturated at `u64::MAX`.
pub open spec fn sat_add(a: u64, b: u64) -> int {
    if a + b > u64::MAX {
        u64::MAX as int
    } else {
        a + b
    }
}

/// A credential is refreshed once it is within the skew of its expiry.
pub fn refresh_due(now_secs: u64, expires_at: u64) -> (r: bool)
    ensures
        r == !(sat_add(now_secs, REFRESH_SKEW_SECS) < expires_at),
{
    !(now_secs.saturating_add(REFRESH_SKEW_SECS) < expires_at)
}

/// What an entitlement lookup leads to.
pub enum PlanStep {
    /// Report the credential as it is.
    Keep,
    /// Store this plan on the credential first.
    Write { plan: Option<String>, paid: bool },
}

/// A failed lookup keeps the cached plan, so an outage never downgrades the chip; an
/// answer that differs from the cache, an empty one included, is written.
pub fn plan_step(tokens: &AccountTokens, fetched: &Result<(Option<String>, bool), String>) -> (r: PlanStep)
    ensures
        match fetched {
            Err(_) => r is Keep,
            Ok((plan, paid)) => if opt_view(*plan) == opt_view(tokens.plan) && *paid == tokens.paid {
                r is Keep
            } else {
                r matches PlanStep::Write { plan: p, paid: q } && opt_view(p) == opt_view(*plan) && q == *paid
            },
        },
{
    match fetched {
        Err(_) => PlanStep::Keep,
        Ok((plan, paid)) => {
            let same_plan = match (plan, &tokens.plan) {
                (Some(a), Some(b)) => crate::text::str_eq(a.as_str(), b.as_str()),
                (None, None) => true,
                _ => false,
            };
            if same_plan && *paid == tokens.paid {
                PlanStep::Keep
            } else {
                let p = match plan {
                    Some(a) => Some(owned(a.as_str())),
                    None => None,
                };
                PlanStep::Write { plan: p, paid: *paid }
            }
        },
    }
}

/// The stored credential with only its plan replaced: a write made after a request goes
/// onto what is stored now, never onto the copy the request started from.
pub fn with_plan(current: AccountTokens, plan: Option<String>, paid: bool) -> (r: AccountTokens)
    ensures
        r.access_token == current.access_token,
        r.refresh_token == current.refresh_token,
        r.expires_at == current.expires_at,
        r.user == current.user,
        r.session_id == current.session_id,
        r.plan == plan,
        r.paid == paid,
{
    let mut c = current;
    c.plan = plan;
    c.paid = paid;
    c
}

/// The status after writing a plan: the credential written, a fresh read when the
/// session was replaced meanwhile (`None`), or the credential as it was when the write
/// failed.
pub fn plan_written(tokens: &AccountTokens, written: Result<Option<AccountTokens>, String>) -> (r: Option<
    AccountStatus,
>)
    ensures
        match written {
            Ok(Some(c)) => r matches Some(s) && status_of(s, c, false),
            Ok(None) => r is None,
            Err(_) => r matches Some(s) && status_of(s, *tokens, false),
        },
{
    match written {
        Ok(Some(c)) => Some(status_for(&c)),
        Ok(None) => None,
        Err(_) => Some(status_for(tokens)),
    }
}

/// What follows a successful refresh and the attempt to store it.
pub enum AfterRefresh {
    /// Stored: look up the plan for the new credential.
    PersistPlan,
    /// Another window replaced the session meanwhile: read what is stored.
    Reread,
    /// Report this.
    Status(AccountStatus),
}

pub fn after_refreshed_save(tokens: &AccountTokens, saved: &Result<Option<()>, String>) -> (r: AfterRefresh)
    ensures
        match saved {
            Ok(Some(())) => r is PersistPlan,
            Ok(None) => r is Reread,
            Err(_) => r matches AfterRefresh::Status(s) && status_of(s, *tokens, true),
        },
{
    match saved {
        Ok(Some(())) => AfterRefresh::PersistPlan,
        Ok(None) => AfterRefresh::Reread,
        Err(_) => AfterRefresh::Status(status_unavailable(tokens)),
    }
}

/// A refresh that failed for a reason other than a dead refresh token: while the
/// credential is still the one refreshed it is reported unavailable, not signed out;
/// otherwise (`None`) what is stored now is read.
pub fn after_refresh_error(tokens: &AccountTokens, still_current: bool) -> (r: Option<AccountStatus>)
    ensures
        still_current ==> (r matches Some(s) && status_of(s, *tokens, true)),
        !still_current ==> r is None,
{
    if still_current {
        Some(status_unavailable(tokens))
    } else {
        None
    }
}

/// The access token a sign-out revokes the server session with, and whether that
/// session is already known to be gone. An expired credential is refreshed first
/// (`refreshed`); only a refresh token proven dead means the session is gone.
pub open spec fn sign_out_access_spec(
    tokens: AccountTokens,
    now_secs: u64,
    refreshed: Option<Result<AccountTokens, AccountAuthError>>,
) -> (Option<Seq<char>>, bool) {
    if now_secs >= tokens.expires_at {
        match refreshed {
            Some(Ok(r)) => (Some(r.access_token@), false),
            Some(Err(AccountAuthError::InvalidRefreshToken(_))) => (None, true),
            _ => (None, false),
        }
    } else {
        (Some(tokens.access_token@), false)
    }
}

pub fn sign_out_access(
    tokens: &AccountTokens,
    now_secs: u64,
    refreshed: Option<Result<AccountTokens, AccountAuthError>>,
) -> (r: (Option<String>, bool))
    ensures
        (opt_view(r.0), r.1) == sign_out_access_spec(*tokens, now_secs, refreshed),
{
    if now_secs >= tokens.expires_at {
        match refreshed {
            Some(Ok(r)) => (Some(r.access_token), false),
            Some(Err(AccountAuthError::InvalidRefreshToken(_))) => (None, true),
            _ => (None, false),
        }
    } else {
        (Some(owned(tokens.access_token.as_str())), false)
    }
}

/// The access token to revoke hosted inference with: the stored one while it is valid,
/// else a refreshed one; none when the refresh token is dead, and the stored one when
/// the refresh failed otherwise.
pub open spec fn hosted_revoke_access_spec(
    tokens: AccountTokens,
    now_secs: u64,
    refreshed: Option<Result<AccountTokens, AccountAuthError>>,
) -> Option<Seq<char>> {
    if now_secs < tokens.expires_at {
        Some(tokens.access_token@)
    } else {
        match refreshed {
            Some(Ok(r)) => Some(r.access_token@),
            Some(Err(AccountAuthError::InvalidRefreshToken(_))) => None,
            _ => Some(tokens.access_token@),
        }
    }
}

pub fn hosted_revoke_access(
    tokens: &AccountTokens,
    now_secs: u64,
    refreshed: Option<Result<AccountTokens, AccountAuthError>>,
) -> (r: Option<String>)
    ensures
        opt_view(r) == hosted_revoke_access_spec(*tokens, now_secs, refreshed),
{
    if now_secs < tokens.expires_at {
        return Some(owned(tokens.access_token.as_str()));
    }
    match refreshed {
        Some(Ok(r)) => Some(r.access_token),
        Some(Err(AccountAuthError::InvalidRefreshToken(_))) => None,
        _ => Some(owned(tokens.access_token.as_str())),
    }
}

/// Whether the server session counts as revoked: already gone, or the logout request
/// (`revoked`, made only when there was a token to make it with) succeeded.
pub fn remote_revoked(already_revoked: bool, revoked: Option<bool>) -> (r: bool)
    ensures
        r == (already_revoked || revoked == Some(true)),
{
    already_revoked || match revoked {
        Some(b) => b,
        None => false,
    }
}

/// The end of a sign-out: the credential was removed (`true`), or a newer pairing had
/// replaced it and is reported with `remaining` (a fresh read of the stored status).
pub fn sign_out_finish(removed: bool, remote: bool, remaining: AccountStatus) -> (r: AccountSignOutResult)
    ensures
        removed ==> !r.signed_in && r.email is None && r.plan is None && !r.paid && !r.unavailable && r.remote_revoked
            == remote,
        !removed ==> r.signed_in == remaining.signed_in && r.email == remaining.email && r.plan == remaining.plan
            && r.paid == remaining.paid && r.unavailable == remaining.unavailable && r.remote_revoked == remote,
{
    if removed {
        signed_out_result(remote)
    } else {
        crate::account::sign_out_status_for_remaining(remaining, remote)
    }
}

/// The chip shows this snapshot.
pub open spec fn shows_credits(v: DesktopCreditsView, c: DesktopCredits) -> bool {
    &&& v.visible
    &&& !v.signed_out
    &&& opt_view(v.plan) == Some(c.plan@)
    &&& v.paid == paid_plan(c.plan@)
    &&& v.balance_cents == Some(c.balance_cents)
    &&& v.cutoff == c.cutoff
    &&& opt_view(v.upsell) == credits_upsell(c.plan@, c.balance_cents, c.cutoff)
    &&& opt_view(v.account_url) == Some(c.account_url@)
    &&& opt_view(v.plans_url) == Some(c.plans_url@)
}

/// The chip when the balance cannot be read now: the last snapshot, else nothing.
pub open spec fn fallback_ok(v: DesktopCreditsView, last: Option<DesktopCredits>) -> bool {
    match last {
        Some(c) => shows_credits(v, c),
        None => is_hidden(v),
    }
}

pub fn credits_fallback(last: &Option<DesktopCredits>) -> (r: DesktopCreditsView)
    ensures
        fallback_ok(r, *last),
{
    match last {
        Some(c) => {
            let v = credits_view_from(c);
            assert(opt_view(v.plan) == Some(c.plan@));
            v
        },
        None => credits_hidden(),
    }
}

/// Why the credits request gave no snapshot.
pub enum CreditsError {
    Status(u16),
    Parse(String),
    Transport(String),
}

/// What happens to the remembered snapshot.
#[derive(PartialEq, Eq, Structural)]
pub enum SnapshotUpdate {
    Keep,
    Clear,
    /// Remember the snapshot just fetched.
    Store,
}

/// What a credits request leads to.
pub enum CreditsNext {
    Show { view: DesktopCreditsView, snapshot: SnapshotUpdate },
    /// The token was refused on the first try: refresh the session and ask once more.
    Refresh,
    /// Refused again after a refresh: the credential is removed (while it is still the
    /// refreshed one), the snapshot forgotten, and the chip signed out.
    SignOut,
}

/// A reply to the credits request. A refused token is refreshed once; refused again, the
/// account is signed out. Credits switched off (404) hide the chip; any other failure
/// keeps the last snapshot.
pub fn credits_step(result: &Result<DesktopCredits, CreditsError>, retried: bool, last: &Option<DesktopCredits>) -> (r:
    CreditsNext)
    ensures
        match result {
            Ok(c) => r matches CreditsNext::Show { view, snapshot } && shows_credits(view, *c) && snapshot
                == SnapshotUpdate::Store,
            Err(CreditsError::Status(401)) => if retried {
                r is SignOut
            } else {
                r is Refresh
            },
            Err(CreditsError::Status(404)) => r matches CreditsNext::Show { view, snapshot } && is_hidden(view)
                && snapshot == SnapshotUpdate::Clear,
            Err(_) => r matches CreditsNext::Show { view, snapshot } && fallback_ok(view, *last) && snapshot
                == SnapshotUpdate::Keep,
        },
{
    match result {
        Ok(c) => CreditsNext::Show { view: credits_view_from(c), snapshot: SnapshotUpdate::Store },
        Err(CreditsError::Status(401)) => if retried {
            CreditsNext::SignOut
        } else {
            CreditsNext::Refresh
        },
        Err(CreditsError::Status(404)) => CreditsNext::Show { view: credits_hidden(), snapshot: SnapshotUpdate::Clear },
        Err(_) => CreditsNext::Show { view: credits_fallback(last), snapshot: SnapshotUpdate::Keep },
    }
}

/// The credential read before asking for credits: with nothing usable stored the chip is
/// signed out (and the snapshot forgotten); an unreadable file keeps the last snapshot.
pub fn credits_on_load(loaded: &Result<Option<AccountTokens>, AccountAuthError>, last: &Option<DesktopCredits>) -> (r:
    Option<CreditsNext>)
    ensures
        match loaded {
            Ok(Some(_)) => r is None,
            Ok(None) => r matches Some(CreditsNext::Show { view, snapshot }) && is_signed_out_view(view) && snapshot
                == SnapshotUpdate::Clear,
            Err(e) => if e is Corrupt || e is InvalidRefreshToken {
                r matches Some(CreditsNext::Show { view, snapshot }) && is_signed_out_view(view) && snapshot
                    == SnapshotUpdate::Clear
            } else {
                r matches Some(CreditsNext::Show { view, snapshot }) && fallback_ok(view, *last) && snapshot
                    == SnapshotUpdate::Keep
            },
        },
{
    match loaded {
        Ok(Some(_)) => None,
        Ok(None) => Some(CreditsNext::Show { view: credits_signed_out(), snapshot: SnapshotUpdate::Clear }),
        Err(e) => if e.clears_credential() {
            Some(CreditsNext::Show { view: credits_signed_out(), snapshot: SnapshotUpdate::Clear })
        } else {
            Some(CreditsNext::Show { view: credits_fallback(last), snapshot: SnapshotUpdate::Keep })
        },
    }
}

/// A refresh after a refused token failed: a dead refresh token signs the account out;
/// any other failure keeps the last snapshot.
pub fn credits_on_refresh_error(e: &AccountAuthError, last: &Option<DesktopCredits>) -> (r: CreditsNext)
    ensures
        e is InvalidRefreshToken ==> r is SignOut,
        !(e is InvalidRefreshToken) ==> (r matches CreditsNext::Show { view, snapshot } && fallback_ok(view, *last)
            && snapshot == SnapshotUpdate::Keep),
{
    match e {
        AccountAuthError::InvalidRefreshToken(_) => CreditsNext::SignOut,
        _ => CreditsNext::Show { view: credits_fallback(last), snapshot: SnapshotUpdate::Keep },
    }
}

} // verus!
