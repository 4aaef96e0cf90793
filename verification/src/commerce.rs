//! In-world commerce — the "buy" side of the Thread.
//!
//! The flow is server-authoritative: the client sends only the world, the
//! item and the price-catalog key to `POST <base>/thread/purchase` with the
//! traveler's Passport as the bearer; the server resolves the price from its
//! own catalog. One purchase is in flight at a time, and an entitlements read
//! (`GET <base>/entitlements/<project>`) runs independently. The caller
//! performs the requests this client hands out and passes back what they
//! delivered.

use vstd::prelude::*;
use crate::fetch::Delivery;
use crate::records::Offer;
use crate::relay::{json_quote, push_json_string};
use crate::text::{chars_of, dec_digits, decimal, push_all, push_str, string_of_all, trim, trim_end_char, trim_end_matching, trimmed};

verus! {

/// The price reference a `commerce.buy` action carries: the value itself when
/// it is a string, and its conventional keys when it is an object.
pub struct PriceRefValue {
    pub text: Option<String>,
    pub price_ref: Option<String>,
    pub product_key: Option<String>,
    pub key: Option<String>,
    pub reference: Option<String>,
}

/// What a stall's placement `data` block says about the sale: its `name`
/// and `currency` and `priceRef` strings, and its `price` value written as
/// JSON text.
pub struct StallData {
    pub name: Option<String>,
    pub price: Option<String>,
    pub currency: Option<String>,
    pub price_ref: Option<String>,
}

pub open spec fn opt_seq(o: Option<String>) -> Option<Seq<char>> {
    match o {
        Some(s) => Some(s@),
        None => None,
    }
}

/// The first of the candidates that is a non-empty string.
pub open spec fn first_nonempty(c: Seq<Option<Seq<char>>>) -> Option<Seq<char>>
    decreases c.len(),
{
    if c.len() == 0 {
        None
    } else if c[0] matches Some(s) && s.len() > 0 {
        c[0]
    } else {
        first_nonempty(c.drop_first())
    }
}

/// The price reference read out of the action's value: a plain string when
/// non-empty; otherwise the first non-empty of `priceRef`, `productKey`,
/// `key`, `ref`.
pub open spec fn price_ref_of(v: PriceRefValue) -> Option<Seq<char>> {
    match v.text {
        Some(s) => if s@.len() > 0 {
            Some(s@)
        } else {
            None
        },
        None => first_nonempty(
            seq![opt_seq(v.price_ref), opt_seq(v.product_key), opt_seq(v.key), opt_seq(v.reference)],
        ),
    }
}

/// The offer a stall makes: the placement's name (or the item id), its
/// price label (`"<price> <currency>"`), and the price reference resolved in
/// order action → placement `priceRef` → item id.
pub open spec fn offer_spec(item: Seq<char>, action: PriceRefValue, data: StallData, world_id: Seq<char>) -> (
    Seq<char>,
    Seq<char>,
    Option<Seq<char>>,
    Seq<char>,
    Seq<char>,
) {
    let name = match data.name {
        Some(n) => if n@.len() > 0 {
            n@
        } else {
            item
        },
        None => item,
    };
    let label = match data.price {
        Some(p) => match data.currency {
            Some(c) => Some(p@ + " "@ + c@),
            None => Some(p@),
        },
        None => None,
    };
    let pref = match price_ref_of(action) {
        Some(r) => r,
        None => match data.price_ref {
            Some(r) => r@,
            None => item,
        },
    };
    (item, name, label, pref, world_id)
}

pub open spec fn offer_view(o: Offer) -> (Seq<char>, Seq<char>, Option<Seq<char>>, Seq<char>, Seq<char>) {
    (o.item@, o.name@, opt_seq(o.price_label), o.price_ref@, o.world_id@)
}

fn copy_str(s: &str) -> (r: String)
    ensures
        r@ == s@,
{
    let mut r = String::new();
    push_str(&mut r, s);
    r
}

fn nonempty(o: &Option<String>) -> (r: Option<String>)
    ensures
        match r {
            Some(s) => o matches Some(t) && t@.len() > 0 && s@ == t@,
            None => !(o matches Some(t) && t@.len() > 0),
        },
{
    match o {
        Some(t) => if chars_of(t.as_str()).len() > 0 {
            Some(t.clone())
        } else {
            None
        },
        None => None,
    }
}

fn price_ref_string(v: &PriceRefValue) -> (r: Option<String>)
    ensures
        opt_seq(r) == price_ref_of(*v),
{
    match &v.text {
        Some(s) => {
            if chars_of(s.as_str()).len() > 0 {
                Some(s.clone())
            } else {
                None
            }
        },
        None => {
            let ghost c = seq![opt_seq(v.price_ref), opt_seq(v.product_key), opt_seq(v.key), opt_seq(v.reference)];
            proof {
                reveal_with_fuel(first_nonempty, 5);
            }
            assert(c.drop_first() =~= seq![opt_seq(v.product_key), opt_seq(v.key), opt_seq(v.reference)]);
            assert(c.drop_first().drop_first() =~= seq![opt_seq(v.key), opt_seq(v.reference)]);
            assert(c.drop_first().drop_first().drop_first() =~= seq![opt_seq(v.reference)]);
            assert(c.drop_first().drop_first().drop_first().drop_first() =~= Seq::<Option<Seq<char>>>::empty());
            if let Some(s) = nonempty(&v.price_ref) {
                return Some(s);
            }
            if let Some(s) = nonempty(&v.product_key) {
                return Some(s);
            }
            if let Some(s) = nonempty(&v.key) {
                return Some(s);
            }
            nonempty(&v.reference)
        },
    }
}

/// Build the offer a stall makes from a `commerce.buy` action and the
/// focused placement's data block.
pub fn offer_from(item: &str, action: &PriceRefValue, data: &StallData, world_id: &str) -> (o: Offer)
    ensures
        offer_view(o) == offer_spec(item@, *action, *data, world_id@),
{
    let name = match nonempty(&data.name) {
        Some(n) => n,
        None => copy_str(item),
    };
    let price_label = match &data.price {
        Some(p) => {
            let mut l = p.clone();
            match &data.currency {
                Some(c) => {
                    push_str(&mut l, " ");
                    push_str(&mut l, c.as_str());
                },
                None => {},
            }
            Some(l)
        },
        None => None,
    };
    let price_ref = match price_ref_string(action) {
        Some(r) => r,
        None => match &data.price_ref {
            Some(r) => r.clone(),
            None => copy_str(item),
        },
    };
    Offer { item: copy_str(item), name, price_label, price_ref, world_id: copy_str(world_id) }
}

/// A purchase to send: `POST <url>` with `Authorization: Bearer <token>` and
/// the JSON `body`.
pub struct PurchaseRequest {
    pub url: String,
    pub token: String,
    pub body: String,
}

/// An entitlements read to send: `GET <url>` with the bearer `token`.
pub struct EntitlementRequest {
    pub url: String,
    pub token: String,
}

/// `{"itemStructuredId":…,"priceRef":…,"worldId":…}`.
pub open spec fn purchase_body(o: (Seq<char>, Seq<char>, Option<Seq<char>>, Seq<char>, Seq<char>)) -> Seq<char> {
    "{\"itemStructuredId\":"@ + json_quote(o.0) + ",\"priceRef\":"@ + json_quote(o.3) + ",\"worldId\":"@
        + json_quote(o.4) + "}"@
}

/// The message a failed call surfaces: the server's own `error` text when its
/// body carried one, else `HTTP <status>`.
pub open spec fn failure_text(server_error: Option<Seq<char>>, status: u16) -> Seq<char> {
    match server_error {
        Some(e) => e,
        None => "HTTP "@ + dec_digits(status as nat),
    }
}

pub fn failure_message(server_error: Option<String>, status: u16) -> (r: String)
    ensures
        r@ == failure_text(opt_seq(server_error), status),
{
    match server_error {
        Some(e) => e,
        None => {
            let mut r = String::new();
            push_str(&mut r, "HTTP ");
            let d = decimal(status as u64);
            push_all(&mut r, &d);
            r
        },
    }
}

/// The browser's commerce client.
pub struct CommerceClient {
    pub base: String,
    /// Passport bearer token: purchases require one. `None` browses only.
    pub token: Option<String>,
    /// The purchase settling, if any.
    pub pending: Option<Offer>,
    /// Whether an entitlements read is in flight.
    pub ent_pending: bool,
}

impl CommerceClient {
    pub fn new(base: &str) -> (r: Self)
        ensures
            r.base@ == base@,
            r.token is None,
            r.pending is None,
            !r.ent_pending,
    {
        CommerceClient { base: copy_str(base), token: None, pending: None, ent_pending: false }
    }

    /// Present a Passport on purchases; a missing or blank token is anonymous.
    pub fn with_token(self, token: Option<String>) -> (r: Self)
        ensures
            r.base == self.base,
            r.pending == self.pending,
            r.ent_pending == self.ent_pending,
            match token {
                Some(t) => if trim(t@).len() == 0 {
                    r.token is None
                } else {
                    r.token == Some(t)
                },
                None => r.token is None,
            },
    {
        let token = match token {
            Some(t) => if trimmed(&chars_of(t.as_str())).len() == 0 {
                None
            } else {
                Some(t)
            },
            None => None,
        };
        CommerceClient { base: self.base, token, pending: self.pending, ent_pending: self.ent_pending }
    }

    /// Whether a Passport is presented (the purchase UI gates Buy on this).
    pub fn has_token(&self) -> (r: bool)
        ensures
            r == self.token is Some,
    {
        self.token.is_some()
    }

    /// The purchase currently settling, if any.
    pub fn in_flight(&self) -> (r: Option<&Offer>)
        ensures
            r == match self.pending {
                Some(o) => Some(&o),
                None => None::<&Offer>,
            },
    {
        match &self.pending {
            Some(o) => Some(o),
            None => None,
        }
    }

    /// Start a purchase: without a Passport, or while another purchase is
    /// settling, nothing happens; otherwise the offer is in flight and the
    /// request to send comes back.
    pub fn buy(&mut self, offer: Offer) -> (req: Option<PurchaseRequest>)
        ensures
            final(self).base == old(self).base,
            final(self).token == old(self).token,
            final(self).ent_pending == old(self).ent_pending,
            if old(self).token is None || old(self).pending is Some {
                req is None && final(self).pending == old(self).pending
            } else {
                (req matches Some(r) && r.url@ == trim_end_char(old(self).base@, '/') + "/thread/purchase"@
                    && r.token@ == old(self).token->0@ && r.body@ == purchase_body(offer_view(offer)))
                    && final(self).pending == Some(offer)
            },
    {
        let token = match &self.token {
            Some(t) => t.clone(),
            None => return None,
        };
        if self.pending.is_some() {
            return None;
        }
        let b = trim_end_matching(&chars_of(self.base.as_str()), '/');
        let mut url = string_of_all(&b);
        push_str(&mut url, "/thread/purchase");
        let mut body = String::new();
        push_str(&mut body, "{\"itemStructuredId\":");
        push_json_string(&mut body, offer.item.as_str());
        push_str(&mut body, ",\"priceRef\":");
        push_json_string(&mut body, offer.price_ref.as_str());
        push_str(&mut body, ",\"worldId\":");
        push_json_string(&mut body, offer.world_id.as_str());
        push_str(&mut body, "}");
        self.pending = Some(offer);
        Some(PurchaseRequest { url, token, body })
    }

    /// Collect a settled purchase (call once per frame with what the request
    /// delivered): the offer comes back with its receipt or its error, and the
    /// client is free to buy again.
    pub fn poll<R>(&mut self, delivery: Delivery<R>) -> (r: Option<(Offer, Result<R, String>)>)
        ensures
            final(self).base == old(self).base,
            final(self).token == old(self).token,
            final(self).ent_pending == old(self).ent_pending,
            match old(self).pending {
                None => r is None && final(self).pending is None,
                Some(o) => match delivery {
                    Delivery::Pending => r is None && final(self).pending == old(self).pending,
                    Delivery::Arrived(x) => r == Some((o, Ok::<R, String>(x))) && final(self).pending is None,
                    Delivery::Failed(e) => r == Some((o, Err::<R, String>(e))) && final(self).pending is None,
                    Delivery::Stopped => (r matches Some((p, Err(m))) && p == o && m@ == "purchase thread stopped"@)
                        && final(self).pending is None,
                },
            },
    {
        if self.pending.is_none() {
            return None;
        }
        match delivery {
            Delivery::Pending => None,
            Delivery::Arrived(x) => {
                let o = self.pending.take().unwrap();
                Some((o, Ok(x)))
            },
            Delivery::Failed(e) => {
                let o = self.pending.take().unwrap();
                Some((o, Err(e)))
            },
            Delivery::Stopped => {
                let o = self.pending.take().unwrap();
                Some((o, Err(copy_str("purchase thread stopped"))))
            },
        }
    }

    /// Read what the traveler holds against a project: nothing without a
    /// Passport, while a read is in flight, or for a blank project id;
    /// otherwise the request to send (`<base>/entitlements/<project, trimmed>`).
    pub fn entitlements(&mut self, project_id: &str) -> (req: Option<EntitlementRequest>)
        ensures
            final(self).base == old(self).base,
            final(self).token == old(self).token,
            final(self).pending == old(self).pending,
            if old(self).token is None || old(self).ent_pending || trim(project_id@).len() == 0 {
                req is None && final(self).ent_pending == old(self).ent_pending
            } else {
                (req matches Some(r) && r.url@ == trim_end_char(old(self).base@, '/') + "/entitlements/"@
                    + trim(project_id@) && r.token@ == old(self).token->0@) && final(self).ent_pending
            },
    {
        let token = match &self.token {
            Some(t) => t.clone(),
            None => return None,
        };
        let project = trimmed(&chars_of(project_id));
        if self.ent_pending || project.len() == 0 {
            return None;
        }
        let b = trim_end_matching(&chars_of(self.base.as_str()), '/');
        let mut url = string_of_all(&b);
        push_str(&mut url, "/entitlements/");
        push_all(&mut url, &project);
        self.ent_pending = true;
        Some(EntitlementRequest { url, token })
    }

    /// Collect a finished entitlements read (call once per frame).
    pub fn poll_entitlements<E>(&mut self, delivery: Delivery<E>) -> (r: Option<Result<E, String>>)
        ensures
            final(self).base == old(self).base,
            final(self).token == old(self).token,
            final(self).pending == old(self).pending,
            if !old(self).ent_pending {
                r is None && !final(self).ent_pending
            } else {
                match delivery {
                    Delivery::Pending => r is None && final(self).ent_pending,
                    Delivery::Arrived(x) => r == Some(Ok::<E, String>(x)) && !final(self).ent_pending,
                    Delivery::Failed(e) => r == Some(Err::<E, String>(e)) && !final(self).ent_pending,
                    Delivery::Stopped => (r matches Some(Err(m)) && m@ == "entitlements thread stopped"@)
                        && !final(self).ent_pending,
                }
            },
    {
        if !self.ent_pending {
            return None;
        }
        match delivery {
            Delivery::Pending => None,
            Delivery::Arrived(x) => {
                self.ent_pending = false;
                Some(Ok(x))
            },
            Delivery::Failed(e) => {
                self.ent_pending = false;
                Some(Err(e))
            },
            Delivery::Stopped => {
                self.ent_pending = false;
                Some(Err(copy_str("entitlements thread stopped")))
            },
        }
    }
}


/// The price reference resolves in the order the stall's action, then the
/// placement's `priceRef`, then the item id: a non-empty reference named by
/// the action wins whatever the placement's data holds, and the placement's
/// is used only when the action names none.
pub proof fn lemma_action_price_ref_wins(item: Seq<char>, action: PriceRefValue, data: StallData, world_id: Seq<char>)
    ensures
        (action.text matches Some(t) && t@.len() > 0) ==> offer_spec(item, action, data, world_id).3 == action.text->0@,
        (action.text is None && (action.price_ref matches Some(p) && p@.len() > 0)) ==> offer_spec(
            item,
            action,
            data,
            world_id,
        ).3 == action.price_ref->0@,
        price_ref_of(action) matches Some(r) ==> offer_spec(item, action, data, world_id).3 == r,
        (price_ref_of(action) is None && data.price_ref is Some) ==> offer_spec(item, action, data, world_id).3
            == data.price_ref->0@,
        (price_ref_of(action) is None && data.price_ref is None) ==> offer_spec(item, action, data, world_id).3
            == item,
{
    if action.text is None {
        let c = seq![opt_seq(action.price_ref), opt_seq(action.product_key), opt_seq(action.key), opt_seq(action.reference)];
        assert(c[0] == opt_seq(action.price_ref));
    }
}

} // verus!
