use serde_json::Value;
use std::cell::RefCell;
use unidpp_registry::applicability_api;
use unidpp_registry::catalog;
use unidpp_registry::cddal;
use unidpp_registry::discovery::{key_id, operator_id, operator_public_key, operator_record, sign_body, OperatorKeyring};
use unidpp_registry::discovery_api;
use unidpp_registry::express::{content_hash, ValidatorRun};
use unidpp_registry::items_api::{self, Listing};
use unidpp_registry::json::Json;
use unidpp_registry::model::{Item, ItemClass};
use unidpp_registry::models_api;
use unidpp_registry::request::{require_admin, Params, Refusal, Reply};
use unidpp_registry::seed;
use unidpp_registry::store::Store;
use unidpp_registry::table::Table;
use unidpp_registry::time::Timestamp;

const REGISTER: &str = "unidpp-dev";

/// A registry in one process: the store, the keyring and the admin token,
/// answering requests by path as the service does.
struct Desk {
    store: RefCell<Store>,
    keyring: OperatorKeyring,
    seeded: RefCell<bool>,
    token: Option<String>,
    run: ValidatorRun,
}

struct Answer {
    status: u16,
    as_of: String,
    content_type: &'static str,
    fallback: bool,
    body: String,
}

impl Answer {
    fn of(r: Result<Reply, Refusal>, now: Timestamp) -> Answer {
        let reply = match r {
            Ok(reply) => reply,
            Err(refusal) => refusal.into_reply(now),
        };
        Answer {
            status: reply.status,
            as_of: reply.as_of.to_string(),
            content_type: "application/json",
            fallback: false,
            body: reply.body.to_text(),
        }
    }

    fn body_string(&self) -> String {
        self.body.clone()
    }

    fn header(&self, name: &str) -> Option<&str> {
        match name {
            "content-type" => Some(self.content_type),
            "x-as-of" => Some(&self.as_of),
            cddal::FALLBACK_HEADER if self.fallback => Some(cddal::FALLBACK_VALUE),
            _ => None,
        }
    }
}

fn now() -> Timestamp {
    Timestamp::parse("2026-11-01T00:00:00Z").unwrap()
}

/// The class that a path's first segment is a subregister of.
fn scope_of(head: &str) -> Option<ItemClass> {
    ItemClass::ALL.into_iter().find(|c| c.plural() == head)
}

fn listing(r: Result<Listing, Refusal>, now: Timestamp) -> Answer {
    match r {
        Ok(Listing::Json { reply, fallback }) => {
            let mut answer = Answer::of(Ok(reply), now);
            answer.fallback = fallback;
            answer
        }
        Ok(Listing::Cddal { as_of, text }) => Answer {
            status: 200,
            as_of: as_of.to_string(),
            content_type: cddal::MEDIA_TYPE,
            fallback: false,
            body: text,
        },
        Err(refusal) => Answer::of(Err(refusal), now),
    }
}

impl Desk {
    fn open() -> Desk {
        Desk::over(Vec::new(), None)
    }

    fn guarded(token: &str) -> Desk {
        Desk::over(Vec::new(), Some(token.to_string()))
    }

    fn over(journal: Vec<String>, token: Option<String>) -> Desk {
        let (store, faults) = Store::open(&journal);
        assert!(faults.is_empty());
        Desk {
            store: RefCell::new(store),
            keyring: OperatorKeyring::seeded_dev(),
            seeded: RefCell::new(false),
            token,
            run: ValidatorRun::Unavailable,
        }
    }

    /// A registry started anew on this one's journal.
    fn restarted(&self) -> Desk {
        Desk::over(self.store.borrow().journal_from(0), self.token.clone())
    }

    fn call(&self, method: &str, target: &str, accept: Option<&str>, body: &str, token: Option<&str>) -> Answer {
        let now = now();
        let (path, query) = target.split_once('?').unwrap_or((target, ""));
        let mut q: Params = Table::new();
        for pair in query.split('&').filter(|p| !p.is_empty()) {
            let (k, v) = pair.split_once('=').unwrap_or((pair, ""));
            q.insert(k.to_string(), v.to_string());
        }
        let parts: Vec<&str> = path.split('/').skip(1).collect();
        let bearer = token.map(|t| format!("Bearer {t}"));
        if method == "POST" || parts[0] == "admin" {
            if let Err(refusal) = require_admin(self.token.as_deref(), bearer.as_deref()) {
                return Answer::of(Err(refusal), now);
            }
        }
        let mut store = self.store.borrow_mut();
        let keyring = &self.keyring;
        let run = &self.run;
        let scope = scope_of(parts[0]);
        let items = parts[0] == "items" || (scope.is_some() && parts[0] != "models");
        match (method, parts.as_slice()) {
            ("GET", [""]) => Answer::of(
                Ok(Reply { status: 200, as_of: now, body: catalog::entry_document() }),
                now,
            ),
            ("GET", ["cross-register-mappings"]) => {
                listing(models_api::mappings_get_or_list(&store, &q, accept, now), now)
            }
            ("GET", [_]) if items => listing(items_api::list_items(&store, &q, scope, accept, now), now),
            ("POST", [_]) if items => Answer::of(items_api::create_item(&mut store, body, scope, now), now),
            ("GET", [_, id]) if items => Answer::of(items_api::get_item(&store, &q, id, scope, now), now),
            ("POST", [_, id, "versions"]) if items => {
                Answer::of(items_api::supersede_item(&mut store, &q, id, body, scope, now), now)
            }
            ("GET", [_, id, "supersession"]) if items => {
                Answer::of(items_api::item_chain(&store, &q, id, scope, now), now)
            }
            ("GET", ["applicability"]) => Answer::of(applicability_api::applicability_query(&store, &q, now), now),
            ("POST", ["applicability"]) => {
                Answer::of(applicability_api::bind_applicability(&mut store, body, now), now)
            }
            ("GET", ["services"]) => Answer::of(discovery_api::list_services(&store, &q, now), now),
            ("POST", ["services"]) => Answer::of(discovery_api::create_service(&mut store, keyring, body, now), now),
            ("GET", ["services", id]) => Answer::of(discovery_api::get_service(&store, &q, id, now), now),
            ("POST", ["services", id, "versions"]) => {
                Answer::of(discovery_api::supersede_service(&mut store, keyring, id, body, now), now)
            }
            ("GET", ["services", id, "supersession"]) => {
                Answer::of(discovery_api::service_chain(&store, &q, id, now), now)
            }
            ("GET", ["protocol-bindings"]) => Answer::of(Ok(discovery_api::list_protocol_bindings(&store, now)), now),
            ("POST", ["protocol-bindings"]) => {
                Answer::of(discovery_api::create_protocol_binding(&mut store, keyring, body, now), now)
            }
            ("GET", ["protocol-bindings", id]) => {
                Answer::of(discovery_api::get_protocol_binding(&store, id, now), now)
            }
            ("GET", ["verification-mechanisms"]) => {
                Answer::of(Ok(discovery_api::list_verification_mechanisms(&store, now)), now)
            }
            ("POST", ["verification-mechanisms"]) => {
                Answer::of(discovery_api::create_verification_mechanism(&mut store, keyring, body, now), now)
            }
            ("GET", ["verification-mechanisms", id]) => {
                Answer::of(discovery_api::get_verification_mechanism(&store, id, now), now)
            }
            ("GET", ["admin", "log"]) => Answer::of(Ok(models_api::admin_log(&store, &q, now)), now),
            ("POST", ["admin", "seed"]) => {
                Answer::of(seed::admin_seed(&mut store, true, &mut self.seeded.borrow_mut(), now), now)
            }
            ("GET", ["schemas", "profile-manifest"]) => {
                let mut answer = Answer::of(models_api::get_profile_manifest_schema(&q, now), now);
                answer.content_type = "application/schema+json";
                answer
            }
            ("GET", ["models"]) => Answer::of(models_api::list_models(&store, &q, now), now),
            ("POST", ["models"]) => Answer::of(
                match models_api::parse_model_request(body, now) {
                    Ok(req) => models_api::deposit_model(&mut store, &req, run, now),
                    Err(refusal) => Err(refusal),
                },
                now,
            ),
            ("GET", ["models", id]) => Answer::of(models_api::get_model(&store, &q, id, now), now),
            ("POST", ["models", id, "validate"]) => Answer::of(
                match models_api::validation_target(&store, id) {
                    Ok((_, current)) => models_api::validate_model(&mut store, id, &current, run, now),
                    Err(refusal) => Err(refusal),
                },
                now,
            ),
            _ => panic!("no route {method} {target}"),
        }
    }
}

fn v(s: &str) -> Value {
    serde_json::from_str(s).unwrap()
}

/// A document with its `"$n"` strings replaced by the given values.
fn fill(s: &str, args: &[Value]) -> Value {
    fn put(doc: &mut Value, args: &[Value]) {
        match doc {
            Value::Object(m) => m.values_mut().for_each(|x| put(x, args)),
            Value::Array(a) => a.iter_mut().for_each(|x| put(x, args)),
            Value::String(t) => {
                if let Some(n) = t.strip_prefix('$').and_then(|n| n.parse::<usize>().ok()) {
                    *doc = args[n].clone();
                }
            }
            _ => {}
        }
    }
    let mut doc = v(s);
    put(&mut doc, args);
    doc
}

fn enc(s: &str) -> String {
    s.to_string()
}

fn get(base: &Desk, target: &str) -> Answer {
    base.call("GET", target, None, "", None)
}

fn get_with_headers(base: &Desk, target: &str, headers: &[(&str, &str)]) -> Answer {
    base.call("GET", target, Some(headers[0].1), "", None)
}

fn post(base: &Desk, path: &str, body: &Value, token: Option<&str>) -> Answer {
    base.call("POST", path, None, &body.to_string(), token)
}

fn send(base: &Desk, path: &str, body: &Value) -> Answer {
    post(base, path, body, None)
}

fn json_of(answer: &Answer) -> Value {
    v(&answer.body)
}

fn sign(body: &mut Value, label: &str) {
    let pk = operator_public_key(label);
    let mut doc = Json::from_value(body.clone());
    sign_body(&mut doc, label, &operator_id(&pk), &key_id(&pk)).expect("sign body");
    *body = doc.to_value();
}

// Registration, current version, discovery

#[test]
fn register_item_current_version_and_discovery() {
    let server = Desk::open();
    let base = &server;

    // Discovery declares the subregisters and as-of convention.
    let resp = get(base, "/");
    assert_eq!(resp.status, 200);
    let doc = json_of(&resp);
    assert_eq!(doc["service"], "unidpp-registry");
    assert_eq!(
        doc["subregisters"]["crypto-suites"]["class"],
        "crypto-suite"
    );
    assert_eq!(
        doc["subregisters"]["trust-anchors"]["path"],
        "/trust-anchors"
    );
    assert_eq!(doc["as_of"]["response_header"], "x-as-of");

    // Register the kilowatt-hour unit.
    let body = fill(r#"{"register_id": "$0", "item_id": "unit-kwh", "class": "unit", "definition": "kilowatt hour", "version": "1.0.0", "status": "valid", "effective_from": "2026-01-01T00:00:00Z", "submitting_organization": "ISO/TC 12"}"#, &[Value::from(REGISTER)]);
    let resp = post(base, "/items", &body, None);
    assert_eq!(resp.status, 201);
    let created = json_of(&resp);
    assert_eq!(created["identifier"], "unit-kwh");
    assert_eq!(created["register"], REGISTER);
    assert_eq!(created["item_class"], "unit");
    assert_eq!(created["title"], "kilowatt hour");
    assert_eq!(created["submitting_organization"], "ISO/TC 12");
    assert_eq!(created["versions"].as_array().unwrap().len(), 1);
    assert_eq!(created["versions"][0]["status"], "valid");
    assert!(created["versions"][0]["registered_at"].as_str().is_some());
    assert_eq!(created["version"]["version"], "1.0.0");
    assert_eq!(created["audit_seq"], 1);
    // as-of stamp on header and body
    assert!(Timestamp::parse(resp.header("x-as-of").unwrap()).is_ok());
    assert!(Timestamp::parse(created["as_of"].as_str().unwrap()).is_ok());

    // Current version without `at`.
    let resp = get(base, "/items/unit-kwh");
    assert_eq!(resp.status, 200);
    let item = json_of(&resp);
    assert_eq!(item["version"]["version"], "1.0.0");
    assert_eq!(item["version"]["status"], "valid");

    // List, class-scoped.
    let resp = get(base, "/items?class=unit");
    let list = json_of(&resp);
    assert_eq!(list["count"], 1);
    assert_eq!(list["items"][0]["identifier"], "unit-kwh");
    let resp = get(base, "/items?class=profile");
    assert_eq!(json_of(&resp)["count"], 0);

    // Duplicate registration conflicts (versions go through the
    // versions endpoint).
    let resp = post(base, "/items", &body, None);
    assert_eq!(resp.status, 409);

    // Validation: missing definition, unknown class, bad status,
    // path-unsafe identifier.
    let mut bad = body.clone();
    bad["definition"] = Value::Null;
    assert_eq!(post(base, "/items", &bad, None).status, 400);
    let mut bad = body.clone();
    bad["item_id"] = v(r#""unit-kwh-2""#);
    bad["class"] = v(r#""bogus""#);
    assert_eq!(post(base, "/items", &bad, None).status, 400);
    let mut bad = body.clone();
    bad["item_id"] = v(r#""unit-kwh-3""#);
    bad["status"] = v(r#""retired""#);
    assert_eq!(post(base, "/items", &bad, None).status, 400);
    let mut bad = body.clone();
    bad["item_id"] = v(r#""slash/id""#);
    assert_eq!(post(base, "/items", &bad, None).status, 400);

    // Unknown item and malformed `at`.
    assert_eq!(get(base, "/items/nope").status, 404);
    assert_eq!(
        get(base, "/items/unit-kwh?at=Yesterday")
            .status,
        400
    );
}

// Supersession and point-in-time windows

#[test]
fn supersede_and_point_in_time_windows() {
    let server = Desk::open();
    let base = &server;

    let register = fill(r#"{"register_id": "$0", "item_id": "eu-espr-textiles", "class": "profile", "definition": "EU ESPR textiles jurisdiction profile", "manifest": {"version": "0.9.0", "issuer_class": "law", "issuer": "ec-espr", "signature": {"signature": "ab01"}}, "version": "0.9.0", "effective_from": "2026-10-18T00:00:00Z"}"#, &[Value::from(REGISTER)]);
    assert_eq!(post(base, "/items", &register, None).status, 201);

    // Supersede: new version + reason; the old transitions to
    // superseded with a derived window end.
    let supersede = v(r#"{
        "version": "1.0.0",
        "reason": "consolidated edition",
        "effective_from": "2027-10-18T00:00:00Z"
    }"#);
    let resp = post(base, "/items/eu-espr-textiles/versions", &supersede, None);
    assert_eq!(resp.status, 201);
    let result = json_of(&resp);
    assert_eq!(result["new_version"]["version"], "1.0.0");
    assert_eq!(result["new_version"]["status"], "valid");
    assert_eq!(result["new_version"]["notes"], "consolidated edition");
    assert_eq!(result["superseded_version"]["version"], "0.9.0");
    assert_eq!(result["superseded_version"]["status"], "superseded");
    assert_eq!(
        result["superseded_version"]["superseded_by_version"],
        "1.0.0"
    );
    assert_eq!(
        result["superseded_version"]["window_end"],
        "2027-10-18T00:00:00Z"
    );
    assert_eq!(result["audit_seq"], 2);

    let at = |when: &str| format!("/items/eu-espr-textiles?at={}", enc(when));

    // Before the item existed: known item, nothing in force.
    let resp = get(base, &at("2026-06-01T00:00:00Z"));
    assert_eq!(resp.status, 200);
    let early = json_of(&resp);
    assert_eq!(early["version"], Value::Null);

    // During the 0.9.0 window.
    let resp = get(base, &at("2027-06-01T00:00:00Z"));
    assert_eq!(resp.status, 200);
    let during = json_of(&resp);
    assert_eq!(during["version"]["version"], "0.9.0");
    assert_eq!(during["version"]["status"], "superseded");
    assert_eq!(during["as_of"], "2027-06-01T00:00:00Z");
    assert_eq!(resp.header("x-as-of").unwrap(), "2027-06-01T00:00:00Z");

    // After the successor took over (half-open window: at the
    // boundary instant the new version rules).
    let resp = get(base, &at("2027-10-18T00:00:00Z"));
    assert_eq!(json_of(&resp)["version"]["version"], "1.0.0");
    let resp = get(base, &at("2028-01-01T00:00:00Z"));
    assert_eq!(json_of(&resp)["version"]["version"], "1.0.0");

    // Current (no `at`): the valid version.
    let resp = get(base, "/items/eu-espr-textiles");
    assert_eq!(json_of(&resp)["version"]["version"], "1.0.0");

    // History is immutable: both versions are on the item.
    let item = json_of(&resp);
    assert_eq!(item["versions"].as_array().unwrap().len(), 2);

    // Error cases.
    let dupe = v(r#"{"version": "1.0.0", "reason": "again"}"#);
    assert_eq!(
        post(base, "/items/eu-espr-textiles/versions", &dupe, None)
            .status,
        409
    );
    let no_reason = v(r#"{"version": "2.0.0"}"#);
    assert_eq!(
        post(base, "/items/eu-espr-textiles/versions", &no_reason, None)
            .status,
        400
    );
    let bad_target = v(r#"{"version": "2.0.0", "reason": "x", "supersede_version": "9.9.9"}"#);
    assert_eq!(
        post(base, "/items/eu-espr-textiles/versions", &bad_target, None)
            .status,
        400
    );
    // only the valid version can be superseded
    let old_target = v(r#"{"version": "2.0.0", "reason": "x", "supersede_version": "0.9.0"}"#);
    assert_eq!(
        post(base, "/items/eu-espr-textiles/versions", &old_target, None)
            .status,
        400
    );
    // the new window cannot start before the superseded version's
    let backdated =
        v(r#"{"version": "2.0.0", "reason": "x", "effective_from": "2026-01-01T00:00:00Z"}"#);
    assert_eq!(
        post(base, "/items/eu-espr-textiles/versions", &backdated, None)
            .status,
        400
    );
    // unknown item
    assert_eq!(
        post(base, "/items/nope/versions", &supersede, None)
            .status,
        404
    );
}

#[test]
fn supersession_chain() {
    let server = Desk::open();
    let base = &server;

    let register = fill(r#"{"register_id": "$0", "item_id": "historic-vehicle", "class": "profile", "definition": "Historic vehicle profile", "manifest": {"version": "1.0.0", "issuer_class": "law", "issuer": "ec-espr", "signature": {"signature": "ab01"}}, "version": "1.0.0", "effective_from": "2018-06-01T00:00:00Z"}"#, &[Value::from(REGISTER)]);
    assert_eq!(post(base, "/items", &register, None).status, 201);
    for (version, from) in [
        ("2.0.0", "2021-06-01T00:00:00Z"),
        ("3.0.0", "2024-06-01T00:00:00Z"),
    ] {
        let resp = post(
            base,
            "/items/historic-vehicle/versions",
            &fill(r#"{"version": "$0", "reason": "edition", "effective_from": "$1"}"#, &[Value::from(version), Value::from(from)]),
            None,
        );
        assert_eq!(resp.status, 201);
    }

    // The whole chain in supersession order.
    let resp = get(base, "/items/historic-vehicle/supersession");
    assert_eq!(resp.status, 200);
    let chain = json_of(&resp);
    let versions: Vec<&str> = chain["chain"]
        .as_array()
        .unwrap()
        .iter()
        .map(|v| v["version"].as_str().unwrap())
        .collect();
    assert_eq!(versions, vec!["1.0.0", "2.0.0", "3.0.0"]);
    let statuses: Vec<&str> = chain["chain"]
        .as_array()
        .unwrap()
        .iter()
        .map(|v| v["status"].as_str().unwrap())
        .collect();
    assert_eq!(statuses, vec!["superseded", "superseded", "valid"]);
    assert_eq!(chain["terminal"]["version"], "3.0.0");
    // derived window ends at each hop
    assert_eq!(chain["chain"][0]["window_end"], "2021-06-01T00:00:00Z");
    assert_eq!(chain["chain"][1]["window_end"], "2024-06-01T00:00:00Z");
    assert!(chain["chain"][2].get("window_end").is_none());

    // From any version.
    let resp = get(base, &format!(
        "/items/historic-vehicle/supersession?from=2.0.0"
    ));
    let from_middle = json_of(&resp);
    assert_eq!(from_middle["chain"].as_array().unwrap().len(), 2);
    assert_eq!(from_middle["terminal"]["version"], "3.0.0");

    // Unknown start version and unknown item.
    assert_eq!(
        get(base, &format!(
            "/items/historic-vehicle/supersession?from=9.9.9"
        ))
        .status,
        400
    );
    assert_eq!(
        get(base, "/items/nope/supersession").status,
        404
    );
}

// Applicability (retroactive and not)

#[test]
fn applicability_retroactivity_and_windows() {
    let server = Desk::open();
    let base = &server;

    for (id, from) in [
        ("eu-espr-textiles", "2020-01-01T00:00:00Z"),
        ("conflict-minerals", "2020-01-01T00:00:00Z"),
    ] {
        let resp = post(
            base,
            "/items",
            &fill(r#"{"register_id": "$0", "item_id": "$1", "class": "profile", "definition": "profile", "manifest": {"version": "1.0.0", "issuer_class": "law", "issuer": "ec-espr", "signature": {"signature": "ab01"}}, "version": "1.0.0", "effective_from": "$2"}"#, &[Value::from(REGISTER), Value::from(id), Value::from(from)]),
            None,
        );
        assert_eq!(resp.status, 201);
    }

    let query = |at: &str| {
        format!(
            "/applicability?product_type={}&at={}",
            enc(SUBJECT),
            enc(at)
        )
    };

    // Retroactive: applies from its effective_from even though
    // registered now (end-of-waste style re-qualification).
    let retro = fill(r#"{"profile_id": "eu-espr-textiles", "product_type": "$0", "effective_from": "1996-01-01T00:00:00Z", "retroactive": true}"#, &[Value::from(SUBJECT)]);
    let resp = post(base, "/applicability", &retro, None);
    assert_eq!(resp.status, 201);
    let binding = json_of(&resp);
    assert_eq!(binding["subject"], SUBJECT);
    assert_eq!(binding["profile_item"], "eu-espr-textiles");
    assert_eq!(binding["retroactive"], true);
    assert_eq!(binding["id"], 1);
    assert!(Timestamp::parse(binding["registered_at"].as_str().unwrap()).is_ok());

    // Non-retroactive: cannot impose obligations before the authority
    // declared it (registered_at).
    let forward = fill(r#"{"profile_id": "conflict-minerals", "product_type": "$0", "effective_from": "2021-01-01T00:00:00Z", "retroactive": false}"#, &[Value::from(SUBJECT)]);
    assert_eq!(
        post(base, "/applicability", &forward, None).status,
        201
    );

    // Bounded window (retroactive, closed by effective_until).
    let bounded = fill(r#"{"profile_id": "eu-espr-textiles", "product_type": "$0", "effective_from": "2020-01-01T00:00:00Z", "effective_until": "2023-01-01T00:00:00Z", "retroactive": true}"#, &[Value::from(SUBJECT)]);
    assert_eq!(
        post(base, "/applicability", &bounded, None).status,
        201
    );

    // 2022: the retroactive open binding and the bounded one; the
    // non-retroactive one is gated by registered_at (now, 2026).
    let resp = get(base, &query("2022-01-01T00:00:00Z"));
    assert_eq!(resp.status, 200);
    let applied = json_of(&resp);
    assert_eq!(applied["product_type"], SUBJECT);
    assert_eq!(applied["as_of"], "2022-01-01T00:00:00Z");
    let entries = applied["applicability"].as_array().unwrap();
    assert_eq!(entries.len(), 2, "retroactive + bounded apply in 2022");
    let profile_versions: Vec<&str> = entries
        .iter()
        .map(|e| e["profile"]["version"]["version"].as_str().unwrap())
        .collect();
    assert!(profile_versions.iter().all(|v| *v == "1.0.0"));

    // 2024: the bounded binding has closed; the non-retroactive one is
    // still before its registered_at.
    let entries = json_of(&get(base, &query("2024-01-01T00:00:00Z")))["applicability"]
        .as_array()
        .unwrap()
        .clone();
    assert_eq!(entries.len(), 1);
    assert_eq!(entries[0]["binding"]["profile_item"], "eu-espr-textiles");

    // 2027: retroactive open + non-retroactive (past registered_at).
    let entries = json_of(&get(base, &query("2027-01-01T00:00:00Z")))["applicability"]
        .as_array()
        .unwrap()
        .clone();
    assert_eq!(entries.len(), 2);
    assert!(entries
        .iter()
        .any(|e| e["binding"]["profile_item"] == "conflict-minerals"));

    // Validation: unknown profile, wrong class, inverted window,
    // missing subject on the query.
    let mut bad = retro.clone();
    bad["profile_id"] = v(r#""nope""#);
    assert_eq!(post(base, "/applicability", &bad, None).status, 400);
    let mut bad = retro.clone();
    bad["profile_id"] = v(r#""unit-kwh""#);
    assert_eq!(post(base, "/applicability", &bad, None).status, 400);
    let mut bad = retro.clone();
    bad["effective_until"] = v(r#""1995-01-01T00:00:00Z""#);
    assert_eq!(post(base, "/applicability", &bad, None).status, 400);
    assert_eq!(get(base, "/applicability").status, 400);
}

// Admin auth and the mutation audit log

#[test]
fn admin_auth_and_mutation_audit() {
    let server = Desk::guarded("s3cret");
    let base = &server;

    let register = fill(r#"{"register_id": "$0", "item_id": "jp-meti-electronics", "class": "profile", "definition": "JP METI electronics profile", "manifest": {"version": "1.0.0", "issuer_class": "law", "issuer": "ec-espr", "signature": {"signature": "ab01"}}, "version": "1.0.0", "effective_from": "2026-01-01T00:00:00Z"}"#, &[Value::from(REGISTER)]);

    // Mutations are guarded.
    assert_eq!(post(base, "/items", &register, None).status, 401);
    assert_eq!(
        post(base, "/items", &register, Some("wrong")).status,
        401
    );
    let resp = post(base, "/items", &register, Some("s3cret"));
    assert_eq!(resp.status, 201);
    assert_eq!(json_of(&resp)["audit_seq"], 1);

    let resp = post(
        base,
        "/items/jp-meti-electronics/versions",
        &v(r#"{"version": "2.0.0", "reason": "PSE scope update", "effective_from": "2027-01-01T00:00:00Z"}"#),
        Some("s3cret"),
    );
    assert_eq!(resp.status, 201);

    let resp = post(
        base,
        "/applicability",
        &v(r#"{"profile_id": "jp-meti-electronics", "product_type": "gtin:06901234000016", "effective_from": "2026-01-01T00:00:00Z"}"#),
        Some("s3cret"),
    );
    assert_eq!(resp.status, 201);

    // Reads stay public.
    let resp = get(base, "/items/jp-meti-electronics");
    assert_eq!(resp.status, 200);
    assert_eq!(json_of(&resp)["version"]["version"], "2.0.0");

    // The audit log is admin-only and records every mutation, in
    // order, with monotonic sequence numbers.
    assert_eq!(get(base, "/admin/log").status, 401);
    let resp = get(base, "/admin/log?limit=100");
    assert_eq!(resp.status, 401);
    let resp = base.call("GET", "/admin/log?limit=100", None, "", Some("s3cret"));
    assert_eq!(resp.status, 200);
    let log = json_of(&resp);
    assert_eq!(log["total"], 3);
    let records = log["records"].as_array().unwrap();
    let ops: Vec<&str> = records.iter().map(|r| r["op"].as_str().unwrap()).collect();
    assert_eq!(
        ops,
        vec!["register-item", "supersede-version", "bind-applicability"]
    );
    let seqs: Vec<u64> = records.iter().map(|r| r["seq"].as_u64().unwrap()).collect();
    assert_eq!(seqs, vec![1, 2, 3]);
    for r in records {
        assert!(Timestamp::parse(r["recorded_at"].as_str().unwrap()).is_ok());
    }
    let supersede = &records[1];
    assert_eq!(supersede["identifier"], "jp-meti-electronics");
    assert_eq!(supersede["superseded_version"], "1.0.0");
    assert_eq!(supersede["prior_status"], "valid");
    assert_eq!(supersede["successor"]["version"], "2.0.0");
    assert_eq!(supersede["successor"]["notes"], "PSE scope update");
    let registration = &records[0];
    assert_eq!(registration["item"]["identifier"], "jp-meti-electronics");
    assert_eq!(registration["item"]["versions"][0]["status"], "valid");
}

// Subregisters (class-scoped endpoints)

#[test]
fn subregisters_are_class_scoped() {
    let server = Desk::open();
    let base = &server;

    // POST /crypto-suites pins the class from the mount point.
    let resp = post(
        base,
        "/crypto-suites",
        &fill(r#"{"register_id": "$0", "item_id": "ed25519", "definition": "Ed25519 signatures", "version": "1.0.0", "effective_from": "2026-01-01T00:00:00Z"}"#, &[Value::from(REGISTER)]),
        None,
    );
    assert_eq!(resp.status, 201);
    assert_eq!(json_of(&resp)["item_class"], "crypto-suite");

    // An explicit conflicting class is rejected.
    let resp = post(
        base,
        "/crypto-suites",
        &fill(r#"{"register_id": "$0", "item_id": "p256", "class": "unit", "definition": "P-256", "version": "1.0.0"}"#, &[Value::from(REGISTER)]),
        None,
    );
    assert_eq!(resp.status, 400);

    // Other subregisters.
    for (path, id, class) in [
        ("/units", "unit-kwh", "unit"),
        ("/profiles", "eu-espr-textiles", "profile"),
        ("/trust-anchors", "ta-nist", "trust-anchor"),
        ("/data-elements", "dp-recycled-content", "data-element"),
    ] {
        // Profiles carry their signed manifest (PR-1); the other
        // classes need none.
        let manifest = (class == "profile").then(|| {
            v(r#"{
                "version": "1.0.0",
                "issuer_class": "law",
                "issuer": "ec-espr",
                "signature": {"signature": "ab01"}
            }"#)
        });
        let mut body = fill(r#"{"register_id": "$0", "item_id": "$1", "definition": "test item", "version": "1.0.0", "effective_from": "2026-01-01T00:00:00Z"}"#, &[Value::from(REGISTER), Value::from(id)]);
        if let (Some(b), Some(m)) = (body.as_object_mut(), manifest) {
            b.insert("manifest".into(), m);
        }
        let resp = post(base, path, &body, None);
        assert_eq!(resp.status, 201);
        assert_eq!(json_of(&resp)["item_class"], class);
    }

    // Listing is class-scoped.
    let resp = get(base, "/crypto-suites");
    let list = json_of(&resp);
    assert_eq!(list["count"], 1);
    assert_eq!(list["items"][0]["identifier"], "ed25519");

    // The same endpoints work under the subregister mount.
    let resp = get(base, "/units/unit-kwh");
    assert_eq!(resp.status, 200);
    assert_eq!(json_of(&resp)["item_class"], "unit");
    let resp = post(
        base,
        "/trust-anchors/ta-nist/versions",
        &v(r#"{"version": "2.0.0", "reason": "key rotation", "effective_from": "2027-01-01T00:00:00Z"}"#),
        None,
    );
    assert_eq!(resp.status, 201);
    let resp = get(base, "/trust-anchors/ta-nist/supersession");
    let chain = json_of(&resp);
    assert_eq!(chain["chain"].as_array().unwrap().len(), 2);
    assert_eq!(chain["terminal"]["version"], "2.0.0");

    // Class scoping hides items of other classes.
    assert_eq!(get(base, "/units/ed25519").status, 404);
    assert_eq!(
        get(base, "/crypto-suites/ta-nist").status,
        404
    );

    // The flat endpoints see everything.
    let resp = get(base, "/items?class=trust-anchor");
    assert_eq!(json_of(&resp)["count"], 1);
}

// Journal persistence across restarts

#[test]
fn journal_replays_state_across_restart() {
    let first = Desk::open();
    {
        let base = &first;
        assert_eq!(
            post(
                base,
                "/items",
                &fill(r#"{"register_id": "$0", "item_id": "eu-espr-textiles", "class": "profile", "definition": "EU ESPR textiles profile", "manifest": {"version": "0.9.0", "issuer_class": "law", "issuer": "ec-espr", "signature": {"signature": "ab01"}}, "version": "0.9.0", "effective_from": "2026-10-18T00:00:00Z"}"#, &[Value::from(REGISTER)]),
                None
            )
            .status,
            201
        );
        assert_eq!(
            post(
                base,
                "/items/eu-espr-textiles/versions",
                &v(r#"{
                    "version": "1.0.0",
                    "reason": "consolidated edition",
                    "effective_from": "2027-10-18T00:00:00Z"
                }"#),
                None
            )
            .status,
            201
        );
        assert_eq!(
            post(
                base,
                "/applicability",
                &fill(r#"{"profile_id": "eu-espr-textiles", "product_type": "$0", "effective_from": "1996-01-01T00:00:00Z", "retroactive": true}"#, &[Value::from(SUBJECT)]),
                None
            )
            .status,
            201
        );
        }

    // A fresh server on the same journal replays the audit log.
    let server = first.restarted();
    let base = &server;
    let resp = get(base, &format!(
        "/items/eu-espr-textiles?at=2028-01-01T00:00:00Z"
    ));
    assert_eq!(resp.status, 200);
    let item = json_of(&resp);
    assert_eq!(item["version"]["version"], "1.0.0");
    assert_eq!(item["versions"].as_array().unwrap().len(), 2);
    assert_eq!(item["versions"][0]["status"], "superseded");
    let resp = get(base, &format!(
        "/applicability?product_type={}&at=2020-01-01T00:00:00Z",
        enc(SUBJECT)
    ));
    assert_eq!(json_of(&resp)["applicability"].as_array().unwrap().len(), 1);
    let log = json_of(&get(base, "/admin/log"));
    assert_eq!(log["total"], 3);
}

// profile manifest schema served + enforced at intake

#[test]
fn profile_manifest_schema_is_served() {
    let server = Desk::open();
    let base = &server;
    let resp = get(base, "/schemas/profile-manifest");
    assert_eq!(resp.status, 200, "{}", resp.body_string());
    assert_eq!(
        resp.header("content-type").unwrap(),
        "application/schema+json"
    );
    assert!(Timestamp::parse(resp.header("x-as-of").unwrap()).is_ok());
    let schema = json_of(&resp);
    assert_eq!(
        schema["$schema"],
        "https://json-schema.org/draft/2020-12/schema"
    );
    assert_eq!(
        schema["$id"],
        "https://unidpp.org/schemas/profile-manifest/v1"
    );
    assert_eq!(schema["type"], "object");
    assert!(schema["required"]
        .as_array()
        .unwrap()
        .contains(&v(r#""version""#)));
    assert!(schema["properties"]["triggers"].is_object());
    assert!(
        schema["as_of"].as_str().is_some(),
        "served with as-of semantics"
    );
    // as-of stamp follows the query instant
    let resp = get(base, &format!(
        "/schemas/profile-manifest?at={}",
        enc("2024-01-01T00:00:00Z")
    ));
    assert_eq!(json_of(&resp)["as_of"], "2024-01-01T00:00:00Z");
}

/// A dialect-A manifest (the pilot material-loop shape).
fn material_loop_manifest() -> Value {
    v(r#"{
        "version": "1.0.0",
        "axes": ["characteristic"],
        "issuing_role": "manufacturer",
        "custody": {"default_model": "mass_balance", "standard": "ISO 22095:2020"},
        "legal_basis": [{
            "instrument": "Regulation (EU) 2024/1252",
            "citation": "Art. 15",
            "force": "binding"
        }],
        "data_points": [
            {
                "element": "de/m/crm-identity",
                "min_capability": "S0",
                "required_provenance": "type_declared",
                "subject_granularity": "type",
                "tier_a": false,
                "traversal_depth": 1,
                "trust_floor": "attested",
                "cardinality": "1..n"
            }
        ],
        "transforms": [
            {"transform_ref": "urn:unidpp:transform:x", "transform_class": "aggregation"}
        ],
        "triggers": [
            {
                "predicate_class": "fact_predicate",
                "predicate_ref": "pred/contains-crm",
                "evaluation_mode": "on_event"
            }
        ],
        "notes": "dialect A"
    }"#)
}

/// A dialect-B manifest (the pilot projector-lens shape).
fn lens_manifest() -> Value {
    fill(r#"{"version": "1.0.0", "profile": {"id": "urn:unidpp:profile:lens", "axes": {"jurisdiction": "EU"}, "trigger": "Any", "min_capability": "silent", "data_points": [{"register": "$0", "item": "de.dpp.x", "version": "1.0.0"}]}, "bindings": [{"element": "unidpp-dev/de.dpp.x@1.0.0", "min_trust": "attested"}], "transforms": [{"kind": "classification", "id": "bands", "bands": [{"label": "A"}]}]}"#, &[Value::from(REGISTER)])
}

#[test]
fn profile_manifest_intake_validates_with_field_paths() {
    let server = Desk::open();
    let base = &server;

    let register = |manifest: Value, mut extra: Value| {
        let mut body = fill(r#"{"register_id": "$0", "item_id": "profile-under-test", "class": "profile", "definition": "profile under test", "version": "1.0.0", "manifest": "$1"}"#, &[Value::from(REGISTER), Value::from(manifest)]);
        if let (Some(o), Some(e)) = (body.as_object_mut(), extra.as_object_mut()) {
            for (k, v) in e.iter() {
                o.insert(k.clone(), v.clone());
            }
        }
        send(base, "/items", &body)
    };

    // Both pilot dialects pass intake (acceptance: the pilot's
    // seeded profiles validate).
    let resp = register(material_loop_manifest(), v(r#"{}"#));
    assert_eq!(resp.status, 201, "{}", resp.body_string());
    let resp = register(lens_manifest(), v(r#"{"item_id": "lens-under-test"}"#));
    assert_eq!(resp.status, 201, "{}", resp.body_string());

    // A malformed manifest is rejected with the field path.
    let mut bad = material_loop_manifest();
    bad["data_points"][0]["min_capability"] = v(r#""S9""#);
    let resp = register(bad, v(r#"{"item_id": "bad-capability"}"#));
    assert_eq!(resp.status, 400);
    let doc = json_of(&resp);
    let errors = doc["errors"].as_array().unwrap();
    assert!(errors
        .iter()
        .any(|e| e["path"] == "data_points[0].min_capability"
            && e["check"] == "profile-manifest-schema"));

    // Missing version (the schema runs before the pinning rule).
    let mut bad = material_loop_manifest();
    bad.as_object_mut().unwrap().remove("version");
    let resp = register(bad, v(r#"{"item_id": "no-version"}"#));
    assert_eq!(resp.status, 400);

    // A time trigger without its duration names the field.
    let mut bad = material_loop_manifest();
    bad["triggers"][0] =
        v(r#"{"predicate_class": "time", "basis": "manufactured_at", "operator": ">="}"#);
    let resp = register(bad, v(r#"{"item_id": "bad-trigger"}"#));
    assert_eq!(resp.status, 400);
    let doc = json_of(&resp);
    assert!(doc["errors"]
        .as_array()
        .unwrap()
        .iter()
        .any(|e| e["message"]
            .as_str()
            .unwrap()
            .contains("`duration` is missing")));

    // The subregister path validates identically.
    let mut body = fill(r#"{"register_id": "$0", "item_id": "subregister-profile", "definition": "via /profiles", "version": "1.0.0", "manifest": "$1"}"#, &[Value::from(REGISTER), Value::from(material_loop_manifest())]);
    body["manifest"]["data_points"][0]["traversal_depth"] = v(r#"-3"#);
    let resp = send(base, "/profiles", &body);
    assert_eq!(resp.status, 400);
    assert!(json_of(&resp)["errors"][0]["path"]
        .as_str()
        .unwrap()
        .contains("traversal_depth"));

    // And a superseding version's new manifest is validated too.
    let mut good = v(r#"{
        "version": "2.0.0",
        "data_points": [{"element": "de/x", "min_capability": "S0"}],
        "triggers": []
    }"#);
    good["data_points"][0]["min_capability"] = v(r#""S99""#);
    let resp = send(
        base,
        "/items/profile-under-test/versions",
        &fill(r#"{"version": "2.0.0", "reason": "new manifest", "manifest": "$0"}"#, &[Value::from(good)]),
    );
    assert_eq!(resp.status, 400, "{}", resp.body_string());

    // Nothing was registered by the rejected requests.
    for id in [
        "bad-capability",
        "no-version",
        "bad-trigger",
        "subregister-profile",
    ] {
        assert_eq!(get(base, &format!("/items/{id}")).status, 404);
    }
}

// clock predicates (the antique Super-Cub case)

/// Registers the historic-vehicle profile: binds when the subject is
/// at least 40 years past `manufactured_at`.
fn seed_clock_profile(base: &Desk) {
    let manifest = v(r#"{
        "version": "1.0.0",
        "axes": ["characteristic"],
        "triggers": [
            {
                "predicate_class": "time",
                "basis": "manufactured_at",
                "operator": ">=",
                "duration": "P40Y",
                "description": "at least forty years since manufacture"
            }
        ]
    }"#);
    let resp = send(
        base,
        "/items",
        &fill(r#"{"register_id": "$0", "item_id": "historic-vehicle", "class": "profile", "definition": "Historic vehicle profile (clock-fired)", "version": "1.0.0", "manifest": "$1"}"#, &[Value::from(REGISTER), Value::from(manifest)]),
    );
    assert_eq!(resp.status, 201, "{}", resp.body_string());
    let resp = send(
        base,
        "/applicability",
        &v(r#"{
            "profile_id": "historic-vehicle",
            "product_type": "gtin:06901234000016",
            "effective_from": "1990-01-01T00:00:00Z",
            "retroactive": true
        }"#),
    );
    assert_eq!(resp.status, 201);
}

const SUBJECT: &str = "gtin:06901234000016";
/// manufactured 1962-05-04 → the P40Y threshold is 2002-05-04.
const FACTS: &str = r#"{"manufactured_at":"1962-05-04T00:00:00Z"}"#;

#[test]
fn clock_predicate_binds_only_after_the_threshold() {
    let server = Desk::open();
    let base = &server;
    seed_clock_profile(base);

    let query = |at: &str| {
        format!(
            "/applicability?product_type={}&at={}&subject_facts={}",
            enc(SUBJECT),
            enc(at),
            enc(FACTS)
        )
    };

    // Before the threshold (T = 2001): the binding's as-of window is
    // open and retroactive, but the clock predicate has not fired.
    let resp = get(base, &query("2001-06-01T00:00:00Z"));
    assert_eq!(resp.status, 200);
    let doc = json_of(&resp);
    assert_eq!(doc["applicability"].as_array().unwrap().len(), 0);

    // After the threshold (T = 2002-06-01): the profile binds, with
    // the evaluation recorded.
    let resp = get(base, &query("2002-06-01T00:00:00Z"));
    let doc = json_of(&resp);
    let entries = doc["applicability"].as_array().unwrap();
    assert_eq!(entries.len(), 1, "binds at the later instant only");
    assert_eq!(entries[0]["binding"]["profile_item"], "historic-vehicle");
    let tt = &entries[0]["time_triggers"][0];
    assert_eq!(tt["threshold"], "2002-05-04T00:00:00Z");
    assert_eq!(tt["duration"], "P40Y");
    assert_eq!(tt["satisfied"], true);

    // The boundary instant itself: >= is inclusive.
    let doc = json_of(&get(base, &query("2002-05-04T00:00:00Z")));
    assert_eq!(doc["applicability"].as_array().unwrap().len(), 1);
    // One second before: not yet.
    let doc = json_of(&get(base, &query("2002-05-03T23:59:59Z")));
    assert_eq!(doc["applicability"].as_array().unwrap().len(), 0);

    // Without subject_facts the clock-fired binding is unresolved,
    // not silently applicable.
    let resp = get(base, &format!(
        "/applicability?product_type={}&at=2020-01-01T00:00:00Z",
        enc(SUBJECT)
    ));
    let doc = json_of(&resp);
    assert_eq!(doc["applicability"].as_array().unwrap().len(), 0);
    assert_eq!(doc["unresolved"].as_array().unwrap().len(), 1);

    // Malformed facts JSON is a 400.
    let resp = get(base, &format!(
        "/applicability?product_type={}&subject_facts=not-json",
        enc(SUBJECT)
    ));
    assert_eq!(resp.status, 400);
    // Facts that are not an object: 400.
    let resp = get(base, &format!(
        "/applicability?product_type={}&subject_facts=[1]",
        enc(SUBJECT)
    ));
    assert_eq!(resp.status, 400);
}

#[test]
fn clock_predicate_evaluates_from_the_post_body() {
    let server = Desk::open();
    let base = &server;
    seed_clock_profile(base);

    // POST /applicability with subject_facts is an evaluation, not a
    // binding mutation.
    let resp = send(
        base,
        "/applicability",
        &fill(r#"{"product_type": "$0", "at": "1999-01-01T00:00:00Z", "subject_facts": {"manufactured_at": "1962-05-04T00:00:00Z"}}"#, &[Value::from(SUBJECT)]),
    );
    assert_eq!(resp.status, 200);
    let doc = json_of(&resp);
    assert_eq!(doc["applicability"].as_array().unwrap().len(), 0);

    let resp = send(
        base,
        "/applicability",
        &fill(r#"{"product_type": "$0", "at": "2005-01-01T00:00:00Z", "subject_facts": {"manufactured_at": "1962-05-04T00:00:00Z"}}"#, &[Value::from(SUBJECT)]),
    );
    let doc = json_of(&resp);
    assert_eq!(doc["applicability"].as_array().unwrap().len(), 1);
    assert_eq!(
        doc["applicability"][0]["time_triggers"][0]["threshold"],
        "2002-05-04T00:00:00Z"
    );

    // A subject that carries no manufacture date is outside the
    // predicate's scope: not bound, no crash.
    let resp = send(
        base,
        "/applicability",
        &fill(r#"{"product_type": "$0", "subject_facts": {}}"#, &[Value::from(SUBJECT)]),
    );
    assert_eq!(resp.status, 200);
    assert_eq!(json_of(&resp)["applicability"].as_array().unwrap().len(), 0);

    // Binding with subject_facts is a 400 (mutually exclusive).
    let resp = send(
        base,
        "/applicability",
        &fill(r#"{"profile_id": "historic-vehicle", "product_type": "$0", "subject_facts": {"manufactured_at": "1962-05-04T00:00:00Z"}}"#, &[Value::from(SUBJECT)]),
    );
    assert_eq!(resp.status, 400);
}

// cross-register mappings

fn seed_two_standards(base: &Desk) {
    for (id, register) in [("gb-4943-1", "gb-std"), ("iec-62368-1", "iec")] {
        let resp = send(
            base,
            "/items",
            &fill(r#"{"register_id": "$0", "item_id": "$1", "class": "data-element", "definition": "$2", "version": "1.0.0"}"#, &[Value::from(register), Value::from(id), Value::from(format!("{id} standard designation"))]),
        );
        assert_eq!(resp.status, 201, "{}", resp.body_string());
    }
}

#[test]
fn cross_register_mapping_lifecycle_and_integrity() {
    let server = Desk::open();
    let base = &server;
    seed_two_standards(base);

    let mapping = fill(r#"{"register_id": "$0", "item_id": "equiv-gb4943-iec62368", "class": "cross-register-mapping", "definition": "GB 4943.1-2022 corresponds to IEC 62368-1 for charger conformity evidence", "version": "1.0.0", "manifest": {"version": "1.0.0", "source": {"register": "gb-std", "item": "gb-4943-1", "version": "1.0.0"}, "target": {"register": "iec", "item": "iec-62368-1"}, "mapping_type": "equivalent", "attester": "CQC-pattern notified body", "evidence_ref": "https://example/evidence"}}"#, &[Value::from(REGISTER)]);

    // Register.
    let resp = send(base, "/items", &mapping);
    assert_eq!(resp.status, 201, "{}", resp.body_string());
    let created = json_of(&resp);
    assert_eq!(created["item_class"], "cross-register-mapping");
    assert_eq!(created["manifest"]["mapping_type"], "equivalent");

    // And through the dedicated subregister.
    let mut via_sub = mapping.clone();
    via_sub["item_id"] = v(r#""map-via-subregister""#);
    let resp = send(base, "/cross-register-mappings", &via_sub);
    assert_eq!(resp.status, 201, "{}", resp.body_string());

    // Dangling reference → 400 with the field path.
    let mut bad = mapping.clone();
    bad["item_id"] = v(r#""map-dangling""#);
    bad["manifest"]["target"]["item"] = v(r#""iec-does-not-exist""#);
    let resp = send(base, "/items", &bad);
    assert_eq!(resp.status, 400);
    let errors = json_of(&resp)["errors"].as_array().unwrap().clone();
    assert!(errors
        .iter()
        .any(|e| e["path"] == "target.item" && e["check"] == "cross-register-mapping-integrity"));

    // Unknown mapping type → schema rejection.
    let mut bad = mapping.clone();
    bad["item_id"] = v(r#""map-bad-type""#);
    bad["manifest"]["mapping_type"] = v(r#""same-ish""#);
    let resp = send(base, "/items", &bad);
    assert_eq!(resp.status, 400);
    assert!(json_of(&resp)["errors"][0]["path"] == "mapping_type");

    // Wrong register claim → integrity rejection.
    let mut bad = mapping.clone();
    bad["item_id"] = v(r#""map-bad-register""#);
    bad["manifest"]["source"]["register"] = v(r#""cen""#);
    let resp = send(base, "/items", &bad);
    assert_eq!(resp.status, 400);
    assert!(json_of(&resp)["errors"][0]["path"] == "source.register");

    // Unregistered version pin → integrity rejection.
    let mut bad = mapping.clone();
    bad["item_id"] = v(r#""map-bad-version""#);
    bad["manifest"]["source"]["version"] = v(r#""9.9.9""#);
    let resp = send(base, "/items", &bad);
    assert_eq!(resp.status, 400);
    assert!(json_of(&resp)["errors"][0]["path"] == "source.version");

    // Nothing rejected was registered.
    for id in [
        "map-dangling",
        "map-bad-type",
        "map-bad-register",
        "map-bad-version",
    ] {
        assert_eq!(get(base, &format!("/items/{id}")).status, 404);
    }

    // Lookup from either direction.
    let by_source = json_of(&get(base, "/cross-register-mappings?item=gb-4943-1"));
    assert_eq!(by_source["count"], 2, "both mappings reference gb-4943-1");
    let by_target =
        json_of(&get(base, "/cross-register-mappings?item=iec-62368-1"));
    assert_eq!(by_target["count"], 2);
    let named_side = json_of(
        &get(base, &format!(
            "/cross-register-mappings?source=gb-4943-1&target=iec-62368-1"
        ))
        ,
    );
    assert_eq!(named_side["count"], 2);
    let wrong_side =
        json_of(&get(base, "/cross-register-mappings?target=gb-4943-1"));
    assert_eq!(wrong_side["count"], 0, "gb-4943-1 is only a source");
    assert_eq!(wrong_side["mappings"].as_array().unwrap().len(), 0);

    // The item itself resolves (generic item view + subregister).
    let resp = get(base, "/items/equiv-gb4943-iec62368");
    assert_eq!(resp.status, 200);
    assert_eq!(
        json_of(&resp)["manifest"]["attester"],
        "CQC-pattern notified body"
    );
    let resp = get(base, &format!(
        "/cross-register-mappings/equiv-gb4943-iec62368"
    ));
    assert_eq!(resp.status, 200);

    // Duplicate registration still conflicts.
    let resp = send(base, "/items", &mapping);
    assert_eq!(resp.status, 409);

    // The audit log carries the registration.
    let log = json_of(&get(base, "/admin/log?limit=10"));
    assert!(
        log["records"]
            .as_array()
            .unwrap()
            .iter()
            .any(|r| r["op"] == "register-item"
                && r["item"]["item_class"] == "cross-register-mapping")
    );
}

// EXPRESS model deposits

const VALID_EXPRESS: &str = "SCHEMA registry_deposit_min '1.0.0';\nEND_SCHEMA;\n";

#[test]
fn express_deposit_round_trip_with_hash_and_validation() {
    let server = Desk::open();
    let base = &server;

    let deposit = fill(r#"{"register_id": "$0", "item_id": "min-schema", "definition": "A minimal EXPRESS deposit", "version": "1.0.0", "source": "$1", "submitting_organization": "UniDPP pilot"}"#, &[Value::from(REGISTER), Value::from(VALID_EXPRESS)]);
    let resp = send(base, "/models", &deposit);
    assert_eq!(resp.status, 201, "{}", resp.body_string());
    let created = json_of(&resp);
    let hash = created["content_hash"].as_str().unwrap().to_string();
    assert!(hash.starts_with("sha256:"));
    assert_eq!(hash.len(), 71);
    assert!(matches!(
        created["validation"]["status"].as_str().unwrap(),
        "valid" | "pending"
    ));

    // GET returns the source, hash, and validation status.
    let resp = get(base, "/models/min-schema");
    assert_eq!(resp.status, 200);
    let model = json_of(&resp);
    assert_eq!(model["source"], VALID_EXPRESS);
    assert_eq!(model["content_hash"], hash.as_str());
    assert_eq!(model["item_class"], "model");
    assert_eq!(model["version"]["version"], "1.0.0");

    // Hash-pinned retrieval: the right hash passes…
    let resp = get(base, &format!("/models/min-schema?hash={}", enc(&hash)));
    assert_eq!(resp.status, 200);
    // …a wrong hash is a conflict.
    let resp = get(base, "/models/min-schema?hash=sha256:deadbeef");
    assert_eq!(resp.status, 409);

    // The listing carries the validation status.
    let list = json_of(&get(base, "/models"));
    assert_eq!(list["count"], 1);
    assert_eq!(list["models"][0]["identifier"], "min-schema");
    assert!(list["models"][0]["validation"].is_string());

    // Re-validation is idempotent and audited.
    let resp = send(base, "/models/min-schema/validate", &v(r#"{}"#));
    assert_eq!(resp.status, 200, "{}", resp.body_string());
    let doc = json_of(&resp);
    assert!(matches!(
        doc["validation"]["status"].as_str().unwrap(),
        "valid" | "pending"
    ));
    let log = json_of(&get(base, "/admin/log?limit=10"));
    assert!(log["records"]
        .as_array()
        .unwrap()
        .iter()
        .any(|r| r["op"] == "update-model-validation"));

    // The generic /items surface sees the model; the class cannot be
    // created there.
    let resp = get(base, "/items/min-schema");
    assert_eq!(json_of(&resp)["item_class"], "model");
    let resp = send(
        base,
        "/items",
        &fill(r#"{"register_id": "$0", "item_id": "direct-model", "class": "model", "definition": "no direct creation", "version": "1.0.0"}"#, &[Value::from(REGISTER)]),
    );
    assert_eq!(resp.status, 400);

    // Unknown model 404s; missing source is a 400.
    assert_eq!(get(base, "/models/nope").status, 404);
    let mut bad = deposit.clone();
    bad["item_id"] = v(r#""no-source""#);
    bad["source"] = Value::Null;
    assert_eq!(send(base, "/models", &bad).status, 400);

    // Duplicate deposit conflicts.
    assert_eq!(send(base, "/models", &deposit).status, 409);
}

#[test]
fn invalid_express_source_is_rejected_when_expressir_is_present() {
    let server = Desk::open();
    let base = &server;
    let resp = send(
        base,
        "/models",
        &fill(r#"{"register_id": "$0", "item_id": "broken-schema", "definition": "A broken EXPRESS deposit", "version": "1.0.0", "source": "SCHEMA broken here;\n"}"#, &[Value::from(REGISTER)]),
    );
    // Degrade path: stored pending, later re-validatable.
    assert_eq!(resp.status, 201);
    assert_eq!(json_of(&resp)["validation"]["status"], "pending");

    // With a validator that rejects the source.
    let server = Desk { run: ValidatorRun::Rejected { stderr: "expressir: parse error".to_string(), stdout: String::new() }, ..Desk::open() };
    let base = &server;
    let resp = send(
        base,
        "/models",
        &fill(r#"{"register_id": "$0", "item_id": "broken-schema", "definition": "A broken EXPRESS deposit", "version": "1.0.0", "source": "SCHEMA broken here;\n"}"#, &[Value::from(REGISTER)]),
    );
    assert_eq!(resp.status, 400, "{}", resp.body_string());
    assert!(resp.body_string().contains("expressir"));
    assert_eq!(get(base, "/models/broken-schema").status, 404);
}

#[test]
fn journal_replays_model_deposits_and_validation_updates() {
    let first = Desk::open();
    {
        let base = &first;
        let resp = send(
            base,
            "/models",
            &fill(r#"{"register_id": "$0", "item_id": "journaled-schema", "definition": "journaled deposit", "version": "1.0.0", "source": "$1"}"#, &[Value::from(REGISTER), Value::from(VALID_EXPRESS)]),
        );
        assert_eq!(resp.status, 201);
        }
    let server = first.restarted();
    let base = &server;
    let model = json_of(&get(base, "/models/journaled-schema"));
    assert_eq!(model["source"], VALID_EXPRESS);
    assert_eq!(
        model["content_hash"],
        content_hash(VALID_EXPRESS)
    );
}

// profile satisfiability

#[test]
fn satisfiability_rejects_unservable_capability_demands() {
    let server = Desk::open();
    let base = &server;

    let demanding = |subject: &str| {
        fill(r#"{"version": "1.0.0", "subject_capability": "$0", "data_points": [{"element": "de/live-state", "min_capability": "S3", "fresh_within": "P1D"}]}"#, &[Value::from(subject)])
    };

    // S3 freshness on an S0 subject: rejected with the field path.
    let resp = send(
        base,
        "/items",
        &fill(r#"{"register_id": "$0", "item_id": "live-profile-on-s0", "class": "profile", "definition": "demands live freshness from a silent subject", "version": "1.0.0", "manifest": "$1"}"#, &[Value::from(REGISTER), Value::from(demanding("S0"))]),
    );
    assert_eq!(resp.status, 400, "{}", resp.body_string());
    let doc = json_of(&resp);
    let errors = doc["errors"].as_array().unwrap();
    assert!(errors.iter().any(|e| e["check"] == "profile-satisfiability"
        && (e["path"] == "data_points[0].min_capability"
            || e["path"] == "data_points[0].fresh_within")));

    // The same profile on an S3 subject passes.
    let resp = send(
        base,
        "/items",
        &fill(r#"{"register_id": "$0", "item_id": "live-profile-on-s3", "class": "profile", "definition": "live freshness for a connected subject", "version": "1.0.0", "manifest": "$1"}"#, &[Value::from(REGISTER), Value::from(demanding("S3"))]),
    );
    assert_eq!(resp.status, 201, "{}", resp.body_string());

    // Warning-only mode: strict=false registers with warnings.
    let resp = send(
        base,
        "/items",
        &fill(r#"{"register_id": "$0", "item_id": "live-profile-warned", "class": "profile", "definition": "registered with a warning", "version": "1.0.0", "strict": false, "manifest": "$1"}"#, &[Value::from(REGISTER), Value::from(demanding("S0"))]),
    );
    assert_eq!(resp.status, 201, "{}", resp.body_string());
    let doc = json_of(&resp);
    let warnings = doc["warnings"].as_array().unwrap();
    assert!(warnings
        .iter()
        .any(|w| w["check"] == "profile-satisfiability"));

    // Bounded freshness alone is unsatisfiable on S1 too.
    let mut s1 = v(r#"{
        "version": "1.0.0",
        "subject_capability": "S1",
        "data_points": [{"element": "de/x", "min_capability": "S0", "fresh_within": "PT6H"}]
    }"#);
    let resp = send(
        base,
        "/items",
        &fill(r#"{"register_id": "$0", "item_id": "s1-freshness", "class": "profile", "definition": "passive-auth cannot serve freshness", "version": "1.0.0", "manifest": "$1"}"#, &[Value::from(REGISTER), Value::from(s1.clone())]),
    );
    assert_eq!(resp.status, 400);
    // …but fine on S2.
    s1["subject_capability"] = v(r#""S2""#);
    let resp = send(
        base,
        "/items",
        &fill(r#"{"register_id": "$0", "item_id": "s2-freshness", "class": "profile", "definition": "logged-contact serves read-time freshness", "version": "1.0.0", "manifest": "$1"}"#, &[Value::from(REGISTER), Value::from(s1)]),
    );
    assert_eq!(resp.status, 201);

    // An undeclared subject class is not checkable (the pilot
    // manifests declare none and pass).
    let mut undeclared = demanding("S0");
    undeclared
        .as_object_mut()
        .unwrap()
        .remove("subject_capability");
    let resp = send(
        base,
        "/items",
        &fill(r#"{"register_id": "$0", "item_id": "undeclared-subject", "class": "profile", "definition": "no declared subject class", "version": "1.0.0", "manifest": "$1"}"#, &[Value::from(REGISTER), Value::from(undeclared)]),
    );
    assert_eq!(resp.status, 201);
}

fn seed_fixture(base: &Desk) {
    for (path, body) in [
        (
            "/data-elements",
            v(r#"{
                "register_id": "untded",
                "item_id": "urn:untded:de:1000",
                "definition": "The name of the document.",
                "version": "1.0.0",
                "effective_from": "2005-01-01T00:00:00Z",
                "submitting_organization": "UNTDED 2005 (ECE/TRADE/362)",
                "manifest": {"version": "1.0.0", "name": "Document name", "tag": 1000, "representation": "an..35"}
            }"#),
        ),
        (
            "/data-elements",
            fill(r#"{"register_id": "$0", "item_id": "urn:unidpp:de:lot-mass", "definition": "Mass of the lot the subject was drawn from.", "version": "1.0.0", "manifest": {"version": "1.0.0", "required_unit": "units:kg"}}"#, &[Value::from(REGISTER)]),
        ),
        (
            "/data-elements",
            v(r#"{
                "register_id": "gb-std",
                "item_id": "gb-4943-1",
                "definition": "GB 4943.1-2022 standard designation",
                "version": "2022"
            }"#),
        ),
        (
            "/data-elements",
            v(r#"{
                "register_id": "iec",
                "item_id": "iec-62368-1",
                "definition": "IEC 62368-1 standard designation",
                "version": "2018"
            }"#),
        ),
        (
            "/profiles",
            fill(r#"{"register_id": "$0", "item_id": "eu-espr-textiles", "definition": "EU ESPR textiles jurisdiction profile", "version": "1.0.0", "effective_from": "2026-10-18T00:00:00Z"}"#, &[Value::from(REGISTER)]),
        ),
        (
            "/units",
            v(r#"{
                "register_id": "unitsml",
                "item_id": "unitsml:u:kilowatt_hour",
                "definition": "kilowatt hour — energy; 1 kW·h = 3.6 MJ exactly",
                "version": "1.0.0",
                "manifest": {"version": "1.0.0", "name": "kilowatt hour", "symbol": "kW·h"}
            }"#),
        ),
        (
            "/cross-register-mappings",
            fill(r#"{"register_id": "$0", "item_id": "map-gb4943-iec62368", "definition": "GB 4943.1-2022 corresponds to IEC 62368-1 for charger conformity evidence", "version": "1.0.0", "manifest": {"version": "1.0.0", "source": {"register": "gb-std", "item": "gb-4943-1", "version": "2022"}, "target": {"register": "iec", "item": "iec-62368-1"}, "mapping_type": "equivalent", "attester": "CQC-pattern notified body"}}"#, &[Value::from(REGISTER)]),
        ),
    ] {
        let resp = send(base, path, &body);
        assert_eq!(resp.status, 201, "{}", resp.body_string());
    }
}

/// Fetches one item through the JSON form and projects it the way
/// the server does (the full wire item parses back into the model;
/// extra view keys are ignored by `Item::from_json`).
fn item_entry(base: &Desk, identifier: &str, at: Option<&str>) -> cddal::TermEntry {
    let mut url = format!("/items/{}", enc(identifier));
    if let Some(t) = at {
        url.push_str(&format!("?at={}", enc(t)));
    }
    let resp = get(base, &url);
    assert_eq!(resp.status, 200, "{}", resp.body_string());
    let item = Item::from_json(&Json::parse(&resp.body).unwrap()).expect("wire item parses into the model");
    cddal::TermEntry::of(&item, at.and_then(|t| Timestamp::parse(t).ok()))
}

#[test]
fn cddal_negotiation_serving_and_round_trip() {
    let server = Desk::open();
    let base = &server;
    seed_fixture(base);

    // -- Default: JSON, no negotiation header ----------------------
    let resp = get(base, "/data-elements");
    assert_eq!(resp.status, 200);
    assert_eq!(resp.header("content-type").unwrap(), "application/json");
    assert!(resp.header("x-content-negotiation").is_none());
    assert_eq!(json_of(&resp)["count"], 4);

    // -- text/cddal is served with the right content type ----------
    let resp = get_with_headers(base, "/data-elements",
        &[("accept", "text/cddal")],
    );
    assert_eq!(resp.status, 200);
    assert_eq!(resp.header("content-type").unwrap(), "text/cddal");
    assert!(Timestamp::parse(resp.header("x-as-of").unwrap()).is_ok());
    assert!(resp.header("x-content-negotiation").is_none());

    // -- Round trip: the served form parses back into exactly the
    //    term entries projected from the registered items ---------
    let text = resp.body_string();
    let entries = cddal::parse(&text).expect("served CDDAL parses");
    assert_eq!(
        entries.len(),
        4,
        "the data-element subregister lists its four items"
    );
    let mut expected: Vec<cddal::TermEntry> = Vec::new();
    for id in [
        "urn:untded:de:1000",
        "urn:unidpp:de:lot-mass",
        "gb-4943-1",
        "iec-62368-1",
    ] {
        expected.push(item_entry(base, id, None));
    }
    expected.sort_by(|a, b| a.identifier.cmp(&b.identifier));
    assert_eq!(entries, expected, "canonicalization round trip");

    // The dictionary slots are present (the UNTDED element carries
    // name + representation; the unit-bearing one its unit).
    let by_id = |id: &str| entries.iter().find(|e| e.identifier == id).unwrap();
    let de1000 = by_id("urn:untded:de:1000");
    assert_eq!(de1000.name, "Document name");
    assert_eq!(de1000.representation.as_deref(), Some("an..35"));
    let lot_mass = by_id("urn:unidpp:de:lot-mass");
    assert_eq!(lot_mass.unit.as_deref(), Some("units:kg"));

    // -- Byte-determinism: two calls are byte-identical ------------
    let again = get_with_headers(base, "/data-elements",
        &[("accept", "text/cddal")],
    )
    .body;
    assert_eq!(again, resp.body, "byte-identical across two calls");

    // -- The flat /items listing: every class, still canonical -----
    let resp = get_with_headers(base, "/items", &[("accept", "text/cddal")]);
    assert_eq!(resp.header("content-type").unwrap(), "text/cddal");
    let entries = cddal::parse(&resp.body_string()).unwrap();
    let mut expected: Vec<cddal::TermEntry> = Vec::new();
    for id in [
        "urn:untded:de:1000",
        "urn:unidpp:de:lot-mass",
        "gb-4943-1",
        "iec-62368-1",
        "eu-espr-textiles",
        "unitsml:u:kilowatt_hour",
        "map-gb4943-iec62368",
    ] {
        expected.push(item_entry(base, id, None));
    }
    expected.sort_by(|a, b| a.identifier.cmp(&b.identifier));
    assert_eq!(entries, expected);
    // identifier-sorted (the store's canonical listing order)
    let ids: Vec<&str> = entries.iter().map(|e| e.identifier.as_str()).collect();
    let mut sorted = ids.clone();
    sorted.sort();
    assert_eq!(ids, sorted);

    // -- Subregister scoping under negotiation ---------------------
    let resp = get_with_headers(base, "/units", &[("accept", "text/cddal")]);
    let entries = cddal::parse(&resp.body_string()).unwrap();
    assert_eq!(entries.len(), 1);
    assert_eq!(entries[0].unit_symbol.as_deref(), Some("kW·h"));
    assert_eq!(entries[0].name, "kilowatt hour");

    // -- Point-in-time: the `at` resolution reaches the CDDAL view --
    // (eu-espr-textiles' window opens 2026-10-18; before that
    // nothing is in force for it)
    let resp = get_with_headers(base, &format!(
            "/items?class=profile&at={}",
            enc("2026-06-01T00:00:00Z")
        ),
        &[("accept", "text/cddal")],
    );
    let entries = cddal::parse(&resp.body_string()).unwrap();
    assert_eq!(entries.len(), 1);
    assert_eq!(entries[0].version, None, "window not yet open → no version");
    assert_eq!(
        entries[0],
        item_entry(base, "eu-espr-textiles", Some("2026-06-01T00:00:00Z"))
    );
}

#[test]
fn unknown_accept_falls_back_to_json_with_warning_header() {
    let server = Desk::open();
    let base = &server;
    seed_fixture(base);

    // An Accept nothing in which the service can serve → JSON with
    // the warning header.
    for accept in ["application/ld+json", "application/xml", "text/plain"] {
        let resp = get_with_headers(base, "/items", &[("accept", accept)]);
        assert_eq!(resp.status, 200, "{accept}");
        assert_eq!(resp.header("content-type").unwrap(), "application/json");
        assert_eq!(
            resp.header("x-content-negotiation").unwrap(),
            "unknown-accept-fallback",
            "{accept}"
        );
        assert!(json_of(&resp)["count"].as_u64().is_some());
        // The subregister listing behaves identically.
        let resp = get_with_headers(base, "/data-elements", &[("accept", accept)]);
        assert_eq!(
            resp.header("x-content-negotiation").unwrap(),
            "unknown-accept-fallback"
        );
    }

    // Servable Accepts stay silent (no warning header).
    for accept in [
        "*/*",
        "application/json",
        "application/json, application/xml",
    ] {
        let resp = get_with_headers(base, "/items", &[("accept", accept)]);
        assert_eq!(resp.header("content-type").unwrap(), "application/json");
        assert!(
            resp.header("x-content-negotiation").is_none(),
            "{accept} should not warn"
        );
    }

    // Accept parameters and case are tolerated for CDDAL.
    let resp = get_with_headers(base, "/items",
        &[("accept", "application/json, TEXT/CDDAL; charset=utf-8")],
    );
    assert_eq!(resp.header("content-type").unwrap(), "text/cddal");
    assert!(resp.header("x-content-negotiation").is_none());
}

/// Sign a service-descriptor body with the given operator label and
/// return the full POST body (`{identifier, version, effective_from,
/// body, signature}` — the signature is over the canonical body).
fn signed_service_body(
    operator_label: &str,
    identifier: &str,
    class: &str,
    uri: &str,
    jurisdiction: &str,
    effective_from: &str,
) -> Value {
    let mut body = fill(r#"{"identifier": "$0", "operator": "$1", "class": "$2", "endpoints": [{"uri": "$3", "protocol_binding_ref": "pb-tier-a-binary"}], "protocol_binding_ref": "pb-tier-a-binary", "jurisdiction": "$4", "residency_class": "anywhere", "status": "active"}"#, &[Value::from(identifier), operator_record(operator_label).to_value(), Value::from(class), Value::from(uri), Value::from(jurisdiction)]);
    sign(&mut body, operator_label);
    fill(r#"{"identifier": "$0", "version": "1.0.0", "effective_from": "$1", "body": "$2", "signature": "$3"}"#, &[Value::from(identifier), Value::from(effective_from), body.clone(), body["signature"].clone()])
}

/// A tampered variant: same shape, but the signature is computed over a
/// different body than the one submitted.
fn tampered_service_body(identifier: &str) -> Value {
    let label = "unidpp-issuer";
    let mut signed = fill(r#"{"identifier": "$0", "operator": "$1", "class": "issuer", "endpoints": [{"uri": "https://issuer.unidpp.org/", "protocol_binding_ref": "pb-tier-a-binary"}], "protocol_binding_ref": "pb-tier-a-binary", "jurisdiction": "DE", "residency_class": "eu", "status": "active"}"#, &[Value::from(identifier), operator_record(label).to_value()]);
    sign(&mut signed, label);
    // swap in a different (tampered) body under the original signature
    let mut tampered = signed.clone();
    tampered["jurisdiction"] = v(r#""CN""#);
    fill(r#"{"identifier": "$0", "version": "1.0.0", "effective_from": "2026-09-01T00:00:00Z", "body": "$1", "signature": "$2"}"#, &[Value::from(identifier), tampered, signed["signature"].clone()])
}

// Signed service descriptors (C3)

#[test]
fn services_signed_registration_and_filters() {
    let server = Desk::open();
    let base = &server;

    // Two services from different operators, jurisdictions, classes.
    let de_issuer = signed_service_body(
        "unidpp-issuer",
        "issuer-de-1",
        "issuer",
        "https://issuer-de.unidpp.org/",
        "DE",
        "2026-01-01T00:00:00Z",
    );
    let fr_resolver = signed_service_body(
        "unidpp-resolver",
        "resolver-fr-1",
        "resolver",
        "https://resolver-fr.unidpp.org/",
        "FR",
        "2026-02-01T00:00:00Z",
    );
    let resp = post(base, "/services", &de_issuer, None);
    assert_eq!(
        resp.status,
        201,
        "valid signature accepted: {}",
        resp.body_string()
    );
    let created = json_of(&resp);
    assert_eq!(created["identifier"], "issuer-de-1");
    assert_eq!(created["version"]["version"], "1.0.0");
    assert_eq!(created["version"]["status"], "active");
    assert_eq!(created["audit_seq"], 1);

    let resp = post(base, "/services", &fr_resolver, None);
    assert_eq!(resp.status, 201);

    // Tampered body under a valid signature: rejected.
    let tampered = tampered_service_body("issuer-evil-1");
    let resp = post(base, "/services", &tampered, None);
    assert_eq!(resp.status, 400, "tampered body rejected");

    // Unknown operator (key not in the keyring): rejected.
    let mut unknown = signed_service_body(
        "unidpp-issuer",
        "issuer-unknown-key-1",
        "issuer",
        "https://x.example/",
        "DE",
        "2026-01-01T00:00:00Z",
    );
    // forge an operator block with a random public key; the signature
    // will fail verification because the keyring has no such operator.
    unknown["body"]["operator"]["id"] = v(r#""op-0000000000000000""#);
    let resp = post(base, "/services", &unknown, None);
    assert_eq!(resp.status, 400, "unknown operator rejected");

    // List with class filter.
    let resp = get(base, "/services?class=issuer");
    let list = json_of(&resp);
    assert_eq!(list["count"], 1);
    assert_eq!(list["services"][0]["identifier"], "issuer-de-1");

    // Jurisdiction filter.
    let resp = get(base, "/services?jurisdiction=FR");
    let list = json_of(&resp);
    assert_eq!(list["count"], 1);
    assert_eq!(list["services"][0]["identifier"], "resolver-fr-1");

    // Combined filters.
    let resp = get(base, "/services?class=resolver&jurisdiction=DE");
    assert_eq!(json_of(&resp)["count"], 0);

    // Unknown class filter value is a 400.
    assert_eq!(
        get(base, "/services?class=nope").status,
        400
    );

    // Single service lookup with as-of semantics: before its window the
    // resolved version is null; the x-as-of header carries the instant.
    let resp = get(base, &format!(
        "/services/issuer-de-1?at={}",
        enc("2025-06-01T00:00:00Z")
    ));
    assert_eq!(resp.status, 200);
    assert_eq!(resp.header("x-as-of").unwrap(), "2025-06-01T00:00:00Z");
    assert_eq!(json_of(&resp)["version"], Value::Null);

    let resp = get(base, &format!(
        "/services/issuer-de-1?at={}",
        enc("2026-06-01T00:00:00Z")
    ));
    assert_eq!(json_of(&resp)["version"]["version"], "1.0.0");

    // Current view without `at`.
    let resp = get(base, "/services/issuer-de-1");
    let svc = json_of(&resp);
    assert_eq!(svc["version"]["version"], "1.0.0");
    assert_eq!(svc["version"]["body"]["class"], "issuer");
    assert_eq!(svc["version"]["body"]["jurisdiction"], "DE");
    assert_eq!(
        svc["version"]["body"]["endpoints"][0]["uri"],
        "https://issuer-de.unidpp.org/"
    );

    // Duplicate registration conflicts.
    let resp = post(base, "/services", &de_issuer, None);
    assert_eq!(resp.status, 409);

    // Unknown service.
    assert_eq!(get(base, "/services/nope").status, 404);

    // Validation: missing body / signature.
    let mut bad = de_issuer.clone();
    bad["body"] = Value::Null;
    assert_eq!(post(base, "/services", &bad, None).status, 400);
    let mut bad = de_issuer.clone();
    bad["identifier"] = v(r#""issuer-de-2""#);
    bad["signature"] = Value::Null;
    assert_eq!(post(base, "/services", &bad, None).status, 400);
}

#[test]
fn services_supersession_and_as_of() {
    let server = Desk::open();
    let base = &server;

    let v1 = signed_service_body(
        "unidpp-trust",
        "trust-unidpp-1",
        "trust",
        "https://trust-v1.unidpp.org/",
        "ZZ",
        "2026-01-01T00:00:00Z",
    );
    assert_eq!(post(base, "/services", &v1, None).status, 201);

    // Supersede with a new signed version (different endpoint).
    let label = "unidpp-trust";
    let mut body = fill(r#"{"identifier": "trust-unidpp-1", "operator": "$0", "class": "trust", "endpoints": [{"uri": "https://trust-v2.unidpp.org/", "protocol_binding_ref": "pb-tier-a-binary"}], "protocol_binding_ref": "pb-tier-a-binary", "jurisdiction": "ZZ", "residency_class": "anywhere", "status": "active"}"#, &[operator_record(label).to_value()]);
    sign(&mut body, label);
    let supersede = fill(r#"{"identifier": "trust-unidpp-1", "version": "2.0.0", "effective_from": "2027-01-01T00:00:00Z", "body": "$0", "signature": "$1"}"#, &[body.clone(), body["signature"].clone()]);
    let resp = post(base, "/services/trust-unidpp-1/versions", &supersede, None);
    assert_eq!(resp.status, 201, "{}", resp.body_string());
    let result = json_of(&resp);
    assert_eq!(result["new_version"]["version"], "2.0.0");
    assert_eq!(result["superseded_version"]["version"], "1.0.0");
    assert_eq!(result["superseded_version"]["status"], "superseded");
    assert_eq!(
        result["superseded_version"]["window_end"],
        "2027-01-01T00:00:00Z"
    );

    // As-of: 2026 → v1 in force (status superseded, window derived);
    // 2027+ → v2.
    let at = |when: &str| format!("/services/trust-unidpp-1?at={}", enc(when));
    assert_eq!(
        json_of(&get(base, &at("2026-06-01T00:00:00Z")))["version"]["version"],
        "1.0.0"
    );
    assert_eq!(
        json_of(&get(base, &at("2027-06-01T00:00:00Z")))["version"]["version"],
        "2.0.0"
    );
    assert_eq!(
        json_of(&get(base, "/services/trust-unidpp-1"))["version"]["version"],
        "2.0.0"
    );

    // Supersession chain.
    let resp = get(base, "/services/trust-unidpp-1/supersession");
    let chain = json_of(&resp);
    let versions: Vec<&str> = chain["chain"]
        .as_array()
        .unwrap()
        .iter()
        .map(|v| v["version"].as_str().unwrap())
        .collect();
    assert_eq!(versions, vec!["1.0.0", "2.0.0"]);
    assert_eq!(chain["terminal"]["version"], "2.0.0");

    // Duplicate version number conflicts; unknown service 404s.
    let mut dupe = supersede.clone();
    dupe["version"] = v(r#""2.0.0""#);
    dupe["body"]["endpoints"][0]["uri"] = v(r#""https://trust-v3.unidpp.org/""#);
    sign(&mut dupe["body"], label);
    dupe["signature"] = dupe["body"]["signature"].clone();
    assert_eq!(
        post(base, "/services/trust-unidpp-1/versions", &dupe, None)
            .status,
        409
    );
    assert_eq!(
        post(base, "/services/nope/versions", &supersede, None)
            .status,
        404
    );
}

// Protocol bindings (C4) and verification mechanisms (C5)

fn signed_protocol_binding(identifier: &str, grammar_ref: &str) -> Value {
    let label = "unidpp-registry";
    let mut wire = fill(r#"{"identifier": "$0", "description": "test binding", "version": "1.0.0", "grammar_ref": "$1", "media_types": ["application/test+json"], "operator": "$2"}"#, &[Value::from(identifier), Value::from(grammar_ref), operator_record(label).to_value()]);
    sign(&mut wire, label);
    // The POST endpoint expects {identifier, version, body, signature}
    // where the signature is over the body.
    fill(r#"{"identifier": "$0", "version": "1.0.0", "body": "$1", "signature": "$2"}"#, &[Value::from(identifier), wire.clone(), wire["signature"].clone()])
}

fn signed_verification_mechanism(identifier: &str, suite: &str) -> Value {
    let label = "unidpp-registry";
    let mut wire = fill(r#"{"identifier": "$0", "suite": "$1", "agility_status": "active", "trust_framework": "SIGNATIF", "trust_list_endpoint": "https://trust.unidpp.org/list", "master_list_ref": "https://unidpp.org/spec/signatif/master-list", "operator": "$2"}"#, &[Value::from(identifier), Value::from(suite), operator_record(label).to_value()]);
    sign(&mut wire, label);
    fill(r#"{"identifier": "$0", "body": "$1", "signature": "$2"}"#, &[Value::from(identifier), wire.clone(), wire["signature"].clone()])
}

#[test]
fn protocol_bindings_and_verification_mechanisms() {
    let server = Desk::open();
    let base = &server;

    // C4: register + list + get.
    let resp = post(
        base,
        "/protocol-bindings",
        &signed_protocol_binding("pb-test-1", "https://example/grammar"),
        None,
    );
    assert_eq!(resp.status, 201, "{}", resp.body_string());
    let created = json_of(&resp);
    assert_eq!(created["identifier"], "pb-test-1");
    assert_eq!(created["binding"]["grammar_ref"], "https://example/grammar");
    assert_eq!(
        created["binding"]["media_types"][0],
        "application/test+json"
    );
    assert_eq!(created["audit_seq"], 1);

    let resp = get(base, "/protocol-bindings");
    let list = json_of(&resp);
    assert_eq!(list["count"], 1);
    assert_eq!(list["protocol_bindings"][0]["identifier"], "pb-test-1");

    let resp = get(base, "/protocol-bindings/pb-test-1");
    assert_eq!(json_of(&resp)["grammar_ref"], "https://example/grammar");

    // Duplicate conflicts; unknown 404.
    assert_eq!(
        post(
            base,
            "/protocol-bindings",
            &signed_protocol_binding("pb-test-1", "https://example/grammar"),
            None
        )
        .status,
        409
    );
    assert_eq!(
        get(base, "/protocol-bindings/nope").status,
        404
    );

    // C5: register + list + get.
    let resp = post(
        base,
        "/verification-mechanisms",
        &signed_verification_mechanism("vm-test-1", "SM2-SM3-SM4"),
        None,
    );
    assert_eq!(resp.status, 201, "{}", resp.body_string());
    let created = json_of(&resp);
    assert_eq!(created["identifier"], "vm-test-1");
    assert_eq!(created["mechanism"]["suite"], "SM2-SM3-SM4");
    assert_eq!(created["mechanism"]["agility_status"], "active");
    assert_eq!(created["mechanism"]["trust_framework"], "SIGNATIF");
    assert_eq!(created["audit_seq"], 2);

    let resp = get(base, "/verification-mechanisms");
    assert_eq!(json_of(&resp)["count"], 1);
    let resp = get(base, "/verification-mechanisms/vm-test-1");
    assert_eq!(json_of(&resp)["suite"], "SM2-SM3-SM4");
    assert_eq!(
        post(
            base,
            "/verification-mechanisms",
            &signed_verification_mechanism("vm-test-1", "SM2-SM3-SM4"),
            None
        )
        .status,
        409
    );
    assert_eq!(
        get(base, "/verification-mechanisms/nope")
            .status,
        404
    );

    // Missing required fields.
    let mut bad = signed_protocol_binding("pb-bad-1", "https://example/g");
    bad["body"]["grammar_ref"] = Value::Null;
    assert_eq!(
        post(base, "/protocol-bindings", &bad, None).status,
        400
    );
    let mut bad = signed_verification_mechanism("vm-bad-1", "x");
    bad["body"]["suite"] = Value::Null;
    assert_eq!(
        post(base, "/verification-mechanisms", &bad, None)
            .status,
        400
    );
}

// Seed dataset + units subregister (C1)

#[test]
fn seed_dataset_populates_discovery_and_units() {
    let server = Desk::open();
    let base = &server;

    // Seed.
    let resp = post(base, "/admin/seed", &v(r#"{}"#), None);
    assert_eq!(resp.status, 200, "{}", resp.body_string());
    let report = json_of(&resp);
    assert_eq!(report["status"], "seeded");
    assert_eq!(report["counts"]["services"], 8);
    assert_eq!(report["counts"]["protocol_bindings"], 5);
    assert_eq!(report["counts"]["verification_mechanisms"], 3);
    assert_eq!(report["counts"]["units"], 10);

    // Idempotent.
    let resp = post(base, "/admin/seed", &v(r#"{}"#), None);
    assert_eq!(json_of(&resp)["status"], "already-seeded");

    // Services: all classes covered, filters work, identifiers are the
    // operator-label form (no doubled prefix).
    let resp = get(base, "/services");
    let list = json_of(&resp);
    assert_eq!(list["count"], 8);
    let svc_ids: Vec<&str> = list["services"]
        .as_array()
        .unwrap()
        .iter()
        .map(|s| s["identifier"].as_str().unwrap())
        .collect();
    for expected in [
        "unidpp-registry-v1",
        "unidpp-issuer-v1",
        "unidpp-resolver-v1",
        "unidpp-trust-v1",
        "unidpp-log-v1",
        "unidpp-archive-v1",
        "unidpp-cli-verifier-v1",
        "unidpp-edge-v1",
    ] {
        assert!(
            svc_ids.contains(&expected),
            "seed service {expected} (got {svc_ids:?})"
        );
    }
    for class in [
        "registry", "issuer", "resolver", "trust", "log", "archive", "edge",
    ] {
        let resp = get(base, &format!("/services?class={class}"));
        let filtered = json_of(&resp);
        assert!(
            filtered["count"].as_u64().unwrap() >= 1,
            "class {class} has at least one service"
        );
    }

    // Protocol bindings: the five seed entries.
    let resp = get(base, "/protocol-bindings");
    let list = json_of(&resp);
    assert_eq!(list["count"], 5);
    let ids: Vec<&str> = list["protocol_bindings"]
        .as_array()
        .unwrap()
        .iter()
        .map(|b| b["identifier"].as_str().unwrap())
        .collect();
    for expected in [
        "pb-en18222-rest",
        "pb-gs1-digital-link",
        "pb-gbt-33993",
        "pb-untp-vc",
        "pb-tier-a-binary",
    ] {
        assert!(ids.contains(&expected), "seed protocol binding {expected}");
    }
    let en18222 = &list["protocol_bindings"][0];
    assert_eq!(
        en18222["grammar_ref"],
        "https://standards.cen-cenelec.eu/EN-18222"
    );
    assert_eq!(en18222["media_types"][0], "application/vnd.en18222+json");

    // Verification mechanisms: SM2 / FIPS / ML-DSA.
    let resp = get(base, "/verification-mechanisms");
    let list = json_of(&resp);
    assert_eq!(list["count"], 3);
    let ids: Vec<&str> = list["verification_mechanisms"]
        .as_array()
        .unwrap()
        .iter()
        .map(|m| m["identifier"].as_str().unwrap())
        .collect();
    assert!(ids.contains(&"vm-sm2-sm3-sm4"));
    assert!(ids.contains(&"vm-fips"));
    assert!(ids.contains(&"vm-ml-dsa"));
    let ml_dsa = list["verification_mechanisms"]
        .as_array()
        .unwrap()
        .iter()
        .find(|m| m["identifier"] == "vm-ml-dsa")
        .unwrap();
    assert_eq!(ml_dsa["agility_status"], "migration");

    // Units: SI base + kWh/MJ/J, ISO 80000 citations in the manifest.
    let resp = get(base, "/units");
    let list = json_of(&resp);
    assert_eq!(list["count"], 10);
    let ids: Vec<&str> = list["items"]
        .as_array()
        .unwrap()
        .iter()
        .map(|u| u["identifier"].as_str().unwrap())
        .collect();
    for expected in [
        "unit-m", "unit-kg", "unit-s", "unit-a", "unit-k", "unit-mol", "unit-cd", "unit-kwh",
        "unit-mj", "unit-j",
    ] {
        assert!(ids.contains(&expected), "seed unit {expected}");
    }
    let resp = get(base, "/units/unit-kwh");
    let kwh = json_of(&resp);
    assert_eq!(kwh["title"], "kilowatt hour");
    assert!(kwh["manifest"]["iso_80000_citation"]
        .as_str()
        .unwrap()
        .starts_with("ISO 80000-4"));
    assert_eq!(kwh["submitting_organization"], "ISO/TC 12");
    assert_eq!(kwh["version"]["version"], "1.0.0");

    // Everything is in the audit log (seed is journaled like any other
    // mutation).
    let log = json_of(&get(base, "/admin/log"));
    assert_eq!(log["total"], 8 + 5 + 3 + 10);
}

// Journal replay of discovery descriptors

#[test]
fn discovery_journal_replays_across_restart() {
    let first = Desk::open();
    {
        let base = &first;
        let svc = signed_service_body(
            "unidpp-log",
            "log-unidpp-1",
            "log",
            "https://log.unidpp.org/",
            "ZZ",
            "2026-01-01T00:00:00Z",
        );
        assert_eq!(post(base, "/services", &svc, None).status, 201);
        assert_eq!(
            post(
                base,
                "/protocol-bindings",
                &signed_protocol_binding("pb-jr-1", "https://example/g"),
                None
            )
            .status,
            201
        );
        assert_eq!(
            post(
                base,
                "/verification-mechanisms",
                &signed_verification_mechanism("vm-jr-1", "FIPS 186-4"),
                None
            )
            .status,
            201
        );
        }

    // Replaying re-applies the descriptors; signatures are not
    // re-verified (they were verified at intake).
    let server = first.restarted();
    let base = &server;
    let resp = get(base, "/services/log-unidpp-1");
    assert_eq!(resp.status, 200);
    let svc = json_of(&resp);
    assert_eq!(svc["version"]["version"], "1.0.0");
    assert_eq!(svc["version"]["body"]["class"], "log");
    assert_eq!(
        json_of(&get(base, "/protocol-bindings"))["count"],
        1
    );
    assert_eq!(
        json_of(&get(base, "/verification-mechanisms"))["count"],
        1
    );
    let log = json_of(&get(base, "/admin/log"));
    assert_eq!(log["total"], 3);
    let ops: Vec<&str> = log["records"]
        .as_array()
        .unwrap()
        .iter()
        .map(|r| r["op"].as_str().unwrap())
        .collect();
    assert_eq!(
        ops,
        vec![
            "register-service",
            "register-protocol-binding",
            "register-verification-mechanism"
        ]
    );
}

// Admin auth on discovery endpoints

#[test]
fn discovery_endpoints_require_admin_when_configured() {
    let server = Desk::guarded("s3cret");
    let base = &server;

    let svc = signed_service_body(
        "unidpp-issuer",
        "issuer-auth-1",
        "issuer",
        "https://issuer.unidpp.org/",
        "DE",
        "2026-01-01T00:00:00Z",
    );
    // Unauthenticated mutation is denied.
    assert_eq!(post(base, "/services", &svc, None).status, 401);
    assert_eq!(
        post(
            base,
            "/protocol-bindings",
            &signed_protocol_binding("pb-auth-1", "https://g/"),
            None
        )
        .status,
        401
    );
    assert_eq!(
        post(
            base,
            "/verification-mechanisms",
            &signed_verification_mechanism("vm-auth-1", "SM2-SM3-SM4"),
            None
        )
        .status,
        401
    );
    assert_eq!(
        post(base, "/admin/seed", &v(r#"{}"#), None).status,
        401
    );

    // Authenticated works.
    assert_eq!(
        post(base, "/services", &svc, Some("s3cret")).status,
        201
    );

    // Reads stay public.
    assert_eq!(get(base, "/services").status, 200);
    assert_eq!(get(base, "/protocol-bindings").status, 200);
    assert_eq!(
        get(base, "/verification-mechanisms").status,
        200
    );
}
