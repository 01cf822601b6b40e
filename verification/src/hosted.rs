//! Hosted models and the credits chip: which catalog the picker shows, whether it is
//! ready, and which upsell it carries.
use vstd::prelude::*;
use crate::text::{chars_of, owned, push_str, str_eq, string_of, trim_end_char, trim_end_char_exec};

verus! {

/// A hosted model as a catalog lists it.
pub struct HostedModel {
    pub id: String,
    pub name: String,
    pub context_window: u64,
    pub max_tokens: u64,
    pub price: Option<u8>,
}

/// A hosted-model catalog.
pub struct HostedCatalog {
    pub provider: String,
    pub default_model: String,
    pub base_url: String,
    pub plans_url: String,
    pub models: Vec<HostedModel>,
}

/// A model as the picker shows it.
pub struct HostedModelView {
    pub id: String,
    pub name: String,
    pub context_window: u64,
    pub max_tokens: u64,
    pub price: Option<u8>,
}

/// The catalog as the picker shows it.
pub struct HostedCatalogView {
    pub provider: String,
    pub default_model: String,
    pub base_url: String,
    pub plans_url: String,
    pub models: Vec<HostedModelView>,
    pub ready: bool,
    pub upsell: Option<String>,
    pub source: String,
    pub balance_cents: Option<i64>,
}

/// The service's credits snapshot; for display only.
pub struct DesktopCredits {
    pub ok: bool,
    pub plan: String,
    pub included_cents: i64,
    pub purchased_cents: i64,
    pub balance_cents: i64,
    pub used_this_period_cents: i64,
    pub cutoff: bool,
    pub auto_reload: bool,
    pub last_reload_error: Option<String>,
    pub account_url: String,
    pub plans_url: String,
}

/// What the credits chip shows.
pub struct DesktopCreditsView {
    pub visible: bool,
    pub signed_out: bool,
    pub plan: Option<String>,
    pub paid: bool,
    pub balance_cents: Option<i64>,
    pub cutoff: bool,
    pub upsell: Option<String>,
    pub account_url: Option<String>,
    pub plans_url: Option<String>,
}

pub open spec fn opt_view(s: Option<String>) -> Option<Seq<char>> {
    match s {
        Some(t) => Some(t@),
        None => None,
    }
}

/// A chip that shows nothing.
pub open spec fn is_hidden(v: DesktopCreditsView) -> bool {
    !v.visible && !v.signed_out && v.plan is None && !v.paid && v.balance_cents is None && !v.cutoff
        && v.upsell is None && v.account_url is None && v.plans_url is None
}

/// A chip that reports a signed-out account and shows nothing else.
pub open spec fn is_signed_out_view(v: DesktopCreditsView) -> bool {
    !v.visible && v.signed_out && v.plan is None && !v.paid && v.balance_cents is None && !v.cutoff
        && v.upsell is None && v.account_url is None && v.plans_url is None
}

pub fn credits_hidden() -> (r: DesktopCreditsView)
    ensures
        is_hidden(r),
{
    DesktopCreditsView {
        visible: false,
        signed_out: false,
        plan: None,
        paid: false,
        balance_cents: None,
        cutoff: false,
        upsell: None,
        account_url: None,
        plans_url: None,
    }
}

pub fn credits_signed_out() -> (r: DesktopCreditsView)
    ensures
        is_signed_out_view(r),
{
    DesktopCreditsView {
        visible: false,
        signed_out: true,
        plan: None,
        paid: false,
        balance_cents: None,
        cutoff: false,
        upsell: None,
        account_url: None,
        plans_url: None,
    }
}

/// The plans that include hosted models.
pub open spec fn paid_plan(id: Seq<char>) -> bool {
    id == "founders"@ || id == "teams"@
}

pub fn is_paid_plan(id: &str) -> (r: bool)
    ensures
        r == paid_plan(id@),
{
    str_eq(id, "founders") || str_eq(id, "teams")
}

/// A stored credential is paid when its flag says so, or when its plan label is a
/// paid plan's label (credentials written before the flag existed).
pub open spec fn paid_stored(plan: Option<Seq<char>>, paid: bool) -> bool {
    paid || plan == Some("Founders Edition"@) || plan == Some("Teams"@)
}

pub fn paid_from_stored_plan(plan: Option<&str>, paid: bool) -> (r: bool)
    ensures
        r == paid_stored(
            match plan {
                Some(p) => Some(p@),
                None => None,
            },
            paid,
        ),
{
    if paid {
        return true;
    }
    match plan {
        Some(p) => str_eq(p, "Founders Edition") || str_eq(p, "Teams"),
        None => false,
    }
}

/// The chip's upsell: subscribe on a free plan, buy credits when the balance is gone or
/// cut off.
pub open spec fn credits_upsell(plan: Seq<char>, balance: i64, cutoff: bool) -> Option<Seq<char>> {
    if !paid_plan(plan) {
        Some("subscribe"@)
    } else if balance <= 0 || cutoff {
        Some("buy-credits"@)
    } else {
        None
    }
}

/// The chip for a fetched snapshot.
pub fn credits_view_from(credits: &DesktopCredits) -> (r: DesktopCreditsView)
    ensures
        r.visible,
        !r.signed_out,
        r.plan == Some(credits.plan) || opt_view(r.plan) == Some(credits.plan@),
        r.paid == paid_plan(credits.plan@),
        r.balance_cents == Some(credits.balance_cents),
        r.cutoff == credits.cutoff,
        opt_view(r.upsell) == credits_upsell(credits.plan@, credits.balance_cents, credits.cutoff),
        opt_view(r.account_url) == Some(credits.account_url@),
        opt_view(r.plans_url) == Some(credits.plans_url@),
{
    let paid = is_paid_plan(credits.plan.as_str());
    let upsell = if !paid {
        Some(owned("subscribe"))
    } else if credits.balance_cents <= 0 || credits.cutoff {
        Some(owned("buy-credits"))
    } else {
        None
    };
    DesktopCreditsView {
        visible: true,
        signed_out: false,
        plan: Some(owned(credits.plan.as_str())),
        paid,
        balance_cents: Some(credits.balance_cents),
        cutoff: credits.cutoff,
        upsell,
        account_url: Some(owned(credits.account_url.as_str())),
        plans_url: Some(owned(credits.plans_url.as_str())),
    }
}

/// The picker as the chip leaves it: signed out blocks everything; a visible chip
/// brings its balance and upsell, and an upsell to subscribe or buy credits blocks use.
pub open spec fn credits_applied(out: HostedCatalogView, view: HostedCatalogView, credits: DesktopCreditsView) -> bool {
    &&& out.provider == view.provider
    &&& out.default_model == view.default_model
    &&& out.base_url == view.base_url
    &&& out.plans_url == view.plans_url
    &&& out.models == view.models
    &&& out.source == view.source
    &&& if credits.signed_out {
        !out.ready && opt_view(out.upsell) == Some("sign-in"@) && out.balance_cents is None
    } else if !credits.visible {
        out.ready == view.ready && out.upsell == view.upsell && out.balance_cents == view.balance_cents
    } else {
        &&& out.balance_cents == credits.balance_cents
        &&& match credits.upsell {
            Some(u) => opt_view(out.upsell) == Some(u@) && out.ready == (view.ready && u@ != "subscribe"@ && u@
                != "buy-credits"@),
            None => out.upsell == view.upsell && out.ready == view.ready,
        }
    }
}

pub fn apply_credits_to_hosted_view(view: HostedCatalogView, credits: &DesktopCreditsView) -> (r: HostedCatalogView)
    ensures
        credits_applied(r, view, *credits),
{
    let mut view = view;
    if credits.signed_out {
        view.ready = false;
        view.upsell = Some(owned("sign-in"));
        view.balance_cents = None;
        return view;
    }
    if !credits.visible {
        return view;
    }
    view.balance_cents = credits.balance_cents;
    match &credits.upsell {
        Some(upsell) => {
            view.upsell = Some(owned(upsell.as_str()));
            if str_eq(upsell.as_str(), "subscribe") || str_eq(upsell.as_str(), "buy-credits") {
                view.ready = false;
            }
        },
        None => {},
    }
    view
}

/// The picker's upsell: sign in, then subscribe.
pub open spec fn upsell_spec(signed_in: bool, paid: bool) -> Option<Seq<char>> {
    if !signed_in {
        Some("sign-in"@)
    } else if !paid {
        Some("subscribe"@)
    } else {
        None
    }
}

pub fn upsell_for(signed_in: bool, paid: bool) -> (r: Option<String>)
    ensures
        opt_view(r) == upsell_spec(signed_in, paid),
{
    if !signed_in {
        Some(owned("sign-in"))
    } else if !paid {
        Some(owned("subscribe"))
    } else {
        None
    }
}

/// The headers of a request to the hosted-model service.
pub fn hosted_headers(access_token: Option<&str>) -> (r: Vec<String>)
    ensures
        r@.len() == if access_token is Some {
            3int
        } else {
            2int
        },
        r@[0]@ == "Accept: application/json"@,
        r@[1]@ == "Content-Type: application/json"@,
        access_token matches Some(t) ==> r@[2]@ == "Authorization: Bearer "@ + t@,
{
    let mut headers: Vec<String> = Vec::new();
    headers.push(owned("Accept: application/json"));
    headers.push(owned("Content-Type: application/json"));
    match access_token {
        Some(token) => {
            let mut h = owned("Authorization: Bearer ");
            push_str(&mut h, token);
            headers.push(h);
        },
        None => {},
    }
    headers
}

/// The catalog shown when neither a live nor a minted one is at hand.
pub open spec fn is_empty_catalog(c: HostedCatalog, accounts_url: Seq<char>) -> bool {
    &&& c.provider@ == "alinery"@
    &&& c.default_model@ == Seq::<char>::empty()
    &&& c.base_url@ == "https://inference.alinery.ai/v1"@
    &&& c.plans_url@ == trim_end_char(accounts_url, '/') + "/plans"@
    &&& c.models@.len() == 0
}

pub fn empty_hosted_catalog(accounts_url: &str) -> (r: HostedCatalog)
    ensures
        is_empty_catalog(r, accounts_url@),
{
    let v = chars_of(accounts_url);
    let origin = trim_end_char_exec(&v, '/');
    let mut plans_url = string_of(origin.as_slice());
    push_str(&mut plans_url, "/plans");
    HostedCatalog {
        provider: owned("alinery"),
        default_model: String::new(),
        base_url: owned("https://inference.alinery.ai/v1"),
        plans_url,
        models: Vec::new(),
    }
}

/// The picker's model for a catalog model: the same fields.
pub open spec fn model_shown(v: HostedModelView, m: HostedModel) -> bool {
    v.id == m.id && v.name == m.name && v.context_window == m.context_window && v.max_tokens == m.max_tokens
        && v.price == m.price
}

pub fn model_view(model: HostedModel) -> (r: HostedModelView)
    ensures
        model_shown(r, model),
{
    HostedModelView {
        id: model.id,
        name: model.name,
        context_window: model.context_window,
        max_tokens: model.max_tokens,
        price: model.price,
    }
}

/// The picker's view of `catalog`, with its readiness, upsell and provenance.
pub open spec fn catalog_shown(
    v: HostedCatalogView,
    c: HostedCatalog,
    ready: bool,
    upsell: Option<Seq<char>>,
    source: Seq<char>,
) -> bool {
    &&& v.provider == c.provider
    &&& v.default_model == c.default_model
    &&& v.base_url == c.base_url
    &&& v.plans_url == c.plans_url
    &&& v.models@.len() == c.models@.len()
    &&& forall|i: int| 0 <= i < v.models@.len() ==> model_shown(#[trigger] v.models@[i], c.models@[i])
    &&& v.ready == ready
    &&& opt_view(v.upsell) == upsell
    &&& v.source@ == source
    &&& v.balance_cents is None
}

pub fn view_from(catalog: HostedCatalog, ready: bool, upsell: Option<String>, source: &str) -> (r: HostedCatalogView)
    ensures
        catalog_shown(r, catalog, ready, opt_view(upsell), source@),
{
    let ghost models = catalog.models@;
    let n = catalog.models.len();
    let mut rest = catalog.models;
    let mut out: Vec<HostedModelView> = Vec::new();
    let mut i: usize = 0;
    while rest.len() > 0
        invariant
            n == models.len(),
            i + rest@.len() == models.len(),
            rest@ == models.skip(i as int),
            out@.len() == i,
            forall|k: int| 0 <= k < i ==> model_shown(#[trigger] out@[k], models[k]),
        decreases rest@.len(),
    {
        let m = rest.remove(0);
        assert(m == models[i as int]);
        assert(rest@ =~= models.skip(i + 1));
        out.push(model_view(m));
        i = i + 1;
    }
    HostedCatalogView {
        provider: catalog.provider,
        default_model: catalog.default_model,
        base_url: catalog.base_url,
        plans_url: catalog.plans_url,
        models: out,
        ready,
        upsell,
        source: owned(source),
        balance_cents: None,
    }
}

/// Which catalog the picker shows: the live one, else the minted one, else an empty
/// one. It is ready only for a paid account that holds a minted key.
pub fn resolve_hosted_catalog(
    live: Option<HostedCatalog>,
    minted: Option<HostedCatalog>,
    accounts_url: &str,
    signed_in: bool,
    paid: bool,
) -> (r: HostedCatalogView)
    ensures
        match (live, minted) {
            (Some(c), _) => catalog_shown(r, c, paid && minted is Some, upsell_spec(signed_in, paid), "live"@),
            (None, Some(c)) => catalog_shown(r, c, paid, upsell_spec(signed_in, paid), "minted"@),
            (None, None) => exists|c: HostedCatalog|
                is_empty_catalog(c, accounts_url@) && #[trigger] catalog_shown(
                    r,
                    c,
                    false,
                    upsell_spec(signed_in, paid),
                    "empty"@,
                ),
        },
{
    let ready = paid && minted.is_some();
    let upsell = upsell_for(signed_in, paid);
    match live {
        Some(catalog) => view_from(catalog, ready, upsell, "live"),
        None => match minted {
            Some(catalog) => view_from(catalog, ready, upsell, "minted"),
            None => {
                let c = empty_hosted_catalog(accounts_url);
                let ghost gc = c;
                let r = view_from(c, false, upsell, "empty");
                assert(catalog_shown(r, gc, false, upsell_spec(signed_in, paid), "empty"@));
                r
            },
        },
    }
}

} // verus!
