use thread_engine::commerce::{failure_message, offer_from, CommerceClient, PriceRefValue, StallData};
use thread_engine::fetch::Delivery;

fn no_ref() -> PriceRefValue {
    PriceRefValue { text: None, price_ref: None, product_key: None, key: None, reference: None }
}

fn no_data() -> StallData {
    StallData { name: None, price: None, currency: None, price_ref: None }
}

#[test]
fn offers_read_market_stall_data() {
    // The Bazaar's stall shape: name, a price of 250, currency gold.
    let data = StallData {
        name: Some("Veilwalker Blade".into()),
        price: Some("250".into()),
        currency: Some("gold".into()),
        price_ref: None,
    };
    let o = offer_from("21010001", &no_ref(), &data, "45010001");
    assert_eq!(o.name, "Veilwalker Blade");
    assert_eq!(o.price_label.as_deref(), Some("250 gold"));
    // No explicit priceRef anywhere → the item id is the catalog key.
    assert_eq!(o.price_ref, "21010001");
    assert_eq!(o.world_id, "45010001");
}

#[test]
fn price_ref_resolution_order() {
    // The action's value wins…
    let action = PriceRefValue { text: Some("blade-sku".into()), ..no_ref() };
    let o = offer_from("21010001", &action, &no_data(), "w");
    assert_eq!(o.price_ref, "blade-sku");
    // …including when it's an object carrying a conventional key…
    let action = PriceRefValue { product_key: Some("blade-pk".into()), ..no_ref() };
    let o = offer_from("21010001", &action, &no_data(), "w");
    assert_eq!(o.price_ref, "blade-pk");
    // …then the placement data's priceRef…
    let data = StallData { price_ref: Some("from-data".into()), ..no_data() };
    let o = offer_from("21010001", &no_ref(), &data, "w");
    assert_eq!(o.price_ref, "from-data");
    // …and a nameless placement falls back to the item id for display too.
    let o = offer_from("21010001", &no_ref(), &no_data(), "w");
    assert_eq!(o.name, "21010001");
    assert!(o.price_label.is_none());
}

#[test]
fn price_ref_keys_are_tried_in_order_and_blanks_skipped() {
    let action = PriceRefValue {
        price_ref: Some(String::new()),
        product_key: None,
        key: Some("k".into()),
        reference: Some("r".into()),
        ..no_ref()
    };
    assert_eq!(offer_from("i", &action, &no_data(), "w").price_ref, "k");
    let action = PriceRefValue { reference: Some("r".into()), ..no_ref() };
    assert_eq!(offer_from("i", &action, &no_data(), "w").price_ref, "r");
    // A blank string value is no reference at all.
    let action = PriceRefValue { text: Some(String::new()), ..no_ref() };
    assert_eq!(offer_from("i", &action, &no_data(), "w").price_ref, "i");
    let data = StallData { name: Some(String::new()), price: Some("\"9\"".into()), ..no_data() };
    let o = offer_from("i", &no_ref(), &data, "w");
    assert_eq!(o.name, "i", "a blank name falls back to the item id");
    assert_eq!(o.price_label.as_deref(), Some("\"9\""));
}

#[test]
fn buying_requires_a_passport_and_one_at_a_time() {
    let offer = offer_from("21010001", &no_ref(), &no_data(), "w");
    // Anonymous (or blank-token) travelers browse; they don't buy.
    let mut anon = CommerceClient::new("http://x").with_token(Some("  ".into()));
    assert!(!anon.has_token());
    assert!(anon.buy(offer.clone()).is_none());
    assert!(anon.in_flight().is_none());
    // A second buy while one is settling is refused, not queued.
    let mut c = CommerceClient::new("http://127.0.0.1:9").with_token(Some("tok".into()));
    assert!(c.buy(offer.clone()).is_some());
    assert!(c.in_flight().is_some());
    assert!(c.buy(offer).is_none());
}

#[test]
fn entitlements_reads_need_a_token_and_a_project() {
    let mut anon = CommerceClient::new("http://x");
    assert!(anon.entitlements("p1").is_none());
    assert!(anon.poll_entitlements::<u32>(Delivery::Arrived(1)).is_none()); // never started
    let mut c = CommerceClient::new("http://x").with_token(Some("tok".into()));
    assert!(c.entitlements("  ").is_none());
    assert!(!c.ent_pending); // blank project → no call
}

#[test]
fn a_purchase_request_carries_only_world_item_and_price_ref() {
    let offer = offer_from(
        "21010001",
        &PriceRefValue { text: Some("blade \"x\"".into()), ..no_ref() },
        &no_data(),
        "45010001",
    );
    let mut c = CommerceClient::new("https://api.example/v1/").with_token(Some("tok".into()));
    let req = c.buy(offer.clone()).unwrap();
    assert_eq!(req.url, "https://api.example/v1/thread/purchase");
    assert_eq!(req.token, "tok");
    assert_eq!(
        req.body,
        r#"{"itemStructuredId":"21010001","priceRef":"blade \"x\"","worldId":"45010001"}"#
    );
    let v: serde_json::Value = serde_json::from_str(&req.body).unwrap();
    assert_eq!(v["priceRef"], "blade \"x\"");
    // Settling hands the offer back and frees the client.
    assert!(c.poll::<&str>(Delivery::Pending).is_none());
    let (o, r) = c.poll(Delivery::Arrived("receipt")).unwrap();
    assert_eq!(o, offer);
    assert_eq!(r, Ok("receipt"));
    assert!(c.in_flight().is_none());
    c.buy(offer).unwrap();
    let (_, r) = c.poll::<&str>(Delivery::Stopped).unwrap();
    assert_eq!(r, Err("purchase thread stopped".to_string()));
}

#[test]
fn entitlement_reads_trim_the_project_and_land_once() {
    let mut c = CommerceClient::new("https://api.example/v1").with_token(Some("tok".into()));
    let req = c.entitlements("  p1 ").unwrap();
    assert_eq!(req.url, "https://api.example/v1/entitlements/p1");
    assert!(c.entitlements("p2").is_none(), "one read at a time");
    assert_eq!(c.poll_entitlements::<u8>(Delivery::Failed("HTTP 500".into())), Some(Err("HTTP 500".into())));
    assert!(c.entitlements("p2").is_some());
    assert_eq!(
        c.poll_entitlements::<u8>(Delivery::Stopped),
        Some(Err("entitlements thread stopped".into()))
    );
}

#[test]
fn failures_prefer_the_server_error_text() {
    assert_eq!(failure_message(Some("No price".into()), 400), "No price");
    assert_eq!(failure_message(None, 503), "HTTP 503");
}
