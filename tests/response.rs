use ckpool_api::error::DecodeError;
use ckpool_api::hashrate::Decimal;
use ckpool_api::response::{RawUserStats, RawWorkerStats, SignedDecimal, UserStats, WorkerStats};

fn to_f64(d: &Decimal) -> f64 {
    let digits: String = d.digits.iter().map(|x| char::from(b'0' + *x)).collect();
    format!("{}e-{}", digits, d.scale).parse().unwrap()
}

fn signed_f64(d: &SignedDecimal) -> f64 {
    let m = to_f64(&d.magnitude);
    if d.negative { -m } else { m }
}

fn text(v: &serde_json::Value, key: &str) -> String {
    v[key].as_str().unwrap().to_string()
}

fn decimal_text(v: &serde_json::Value, key: &str) -> String {
    format!("{}", v[key].as_f64().unwrap())
}

fn raw_worker(v: &serde_json::Value) -> RawWorkerStats {
    RawWorkerStats {
        worker_name: text(v, "workername"),
        hashrate1m: text(v, "hashrate1m"),
        hashrate5m: text(v, "hashrate5m"),
        hashrate1hr: text(v, "hashrate1hr"),
        hashrate1d: text(v, "hashrate1d"),
        hashrate7d: text(v, "hashrate7d"),
        last_share: v["lastshare"].as_u64().unwrap(),
        shares: v["shares"].as_u64().unwrap() as usize,
        best_share: decimal_text(v, "bestshare"),
        best_ever: v["bestever"].as_u64().unwrap() as usize,
    }
}

fn raw_user(json: &str) -> RawUserStats {
    let v: serde_json::Value = serde_json::from_str(json).unwrap();
    RawUserStats {
        hashrate1m: text(&v, "hashrate1m"),
        hashrate5m: text(&v, "hashrate5m"),
        hashrate1hr: text(&v, "hashrate1hr"),
        hashrate1d: text(&v, "hashrate1d"),
        hashrate7d: text(&v, "hashrate7d"),
        last_share: v["lastshare"].as_u64().unwrap(),
        workers: v["workers"].as_u64().unwrap() as usize,
        shares: v["shares"].as_u64().unwrap() as usize,
        best_share: decimal_text(&v, "bestshare"),
        best_ever: v["bestever"].as_u64().unwrap() as usize,
        authorised: v["authorised"].as_u64().unwrap(),
        worker: v["worker"].as_array().unwrap().iter().map(raw_worker).collect(),
    }
}

const SAMPLE: &str = r#"{
    "hashrate1m": "0",
    "hashrate5m": "1K",
    "hashrate1hr": "6.2M",
    "hashrate1d": "7G",
    "hashrate7d": "2T",
    "lastshare": 1747672247,
    "workers": 0,
    "shares": 323295,
    "bestshare": 105654.8966108053,
    "bestever": 105654,
    "authorised": 1740481437,
    "worker": [
        {
            "workername": "bc1qz9vvexjmexe8pr2aueuz6x0v94ulkx2m2sp6lr",
            "hashrate1m": "3P",
            "hashrate5m": "4E",
            "hashrate1hr": "0",
            "hashrate1d": "6.19M",
            "hashrate7d": "340M",
            "lastshare": 1747672247,
            "shares": 139320,
            "bestshare": 49794.22067862848,
            "bestever": 49794
        }
    ]
}"#;

fn worker_raw(rate1m: &str, rate5m: &str, best: &str) -> RawWorkerStats {
    RawWorkerStats {
        worker_name: "rig".to_string(),
        hashrate1m: rate1m.to_string(),
        hashrate5m: rate5m.to_string(),
        hashrate1hr: "0".to_string(),
        hashrate1d: "0".to_string(),
        hashrate7d: "0".to_string(),
        last_share: 1,
        shares: 2,
        best_share: best.to_string(),
        best_ever: 3,
    }
}

fn field_error(e: DecodeError) -> (String, String) {
    match e {
        DecodeError::Field { field, text } => (field, text),
        other => panic!("expected a field error, got {:?}", other),
    }
}

#[test]
fn test_user_stats_deserialization() {
    let stats: UserStats = UserStats::decode(&raw_user(SAMPLE)).unwrap();

    // Test main stats
    assert_eq!(to_f64(&stats.hashrate1m), 0.0);
    assert_eq!(to_f64(&stats.hashrate5m), 1_000.0);
    assert_eq!(to_f64(&stats.hashrate1hr), 6.2 * 10.0_f64.powf(6.0));
    assert_eq!(to_f64(&stats.hashrate1d), 7.0 * 10.0_f64.powf(9.0));
    assert_eq!(to_f64(&stats.hashrate7d), 2.0 * 10.0_f64.powf(12.0));
    assert_eq!(stats.last_share, 1747672247);
    assert_eq!(stats.workers, 0);
    assert_eq!(stats.shares, 323295);
    assert_eq!(signed_f64(&stats.best_share), 105654.8966108053);
    assert_eq!(stats.best_ever, 105654);
    assert_eq!(stats.authorised, 1740481437);

    // Test worker stats
    assert_eq!(stats.worker.len(), 1);
    let worker = &stats.worker[0];
    assert_eq!(worker.worker_name, "bc1qz9vvexjmexe8pr2aueuz6x0v94ulkx2m2sp6lr");
    assert_eq!(to_f64(&worker.hashrate1m), 3.0 * 10.0_f64.powf(15.0));
    assert_eq!(to_f64(&worker.hashrate5m), 4.0 * 10.0_f64.powf(18.0));
    assert_eq!(to_f64(&worker.hashrate1hr), 0.0);
    assert_eq!(to_f64(&worker.hashrate1d), 6_190_000.0);
    assert_eq!(to_f64(&worker.hashrate7d), 340_000_000.0);
    assert_eq!(worker.last_share, 1747672247);
    assert_eq!(worker.shares, 139320);
    assert_eq!(signed_f64(&worker.best_share), 49794.22067862848);
    assert_eq!(worker.best_ever, 49794);
}

#[test]
fn sample_hash_rates_are_exact() {
    let stats = UserStats::decode(&raw_user(SAMPLE)).unwrap();
    assert_eq!(stats.hashrate1hr.digits, vec![6, 2, 0, 0, 0, 0, 0]);
    assert_eq!(stats.hashrate1hr.scale, 0);
    assert_eq!(stats.best_share.magnitude.scale, 10);
    assert_eq!(stats.worker[0].hashrate5m.digits.len(), 19);
}

#[test]
fn worker_peta_and_exa_rates() {
    let w = WorkerStats::decode(&worker_raw("3P", "4E", "1.5")).unwrap();
    assert_eq!(to_f64(&w.hashrate1m), 3e15);
    assert_eq!(to_f64(&w.hashrate5m), 4e18);
    assert_eq!(signed_f64(&w.best_share), 1.5);
    assert_eq!(w.worker_name, "rig");
    assert_eq!((w.last_share, w.shares, w.best_ever), (1, 2, 3));
}

#[test]
fn empty_worker_array_decodes_to_no_workers() {
    let mut raw = raw_user(SAMPLE);
    raw.worker = Vec::new();
    let stats = UserStats::decode(&raw).unwrap();
    assert!(stats.worker.is_empty());
    assert_eq!(stats.workers, 0);
}

#[test]
fn bad_user_rate_names_its_field() {
    let mut raw = raw_user(SAMPLE);
    raw.hashrate5m = "12X".to_string();
    raw.hashrate1d = "abc".to_string();
    let e = UserStats::decode(&raw).unwrap_err();
    assert_eq!(field_error(e), ("hashrate5m".to_string(), "12X".to_string()));
}

#[test]
fn bad_worker_rate_names_its_field() {
    let mut raw = raw_user(SAMPLE);
    raw.worker.push(worker_raw("1K", "fast", "1"));
    let e = UserStats::decode(&raw).unwrap_err();
    assert_eq!(field_error(e), ("hashrate5m".to_string(), "fast".to_string()));
}

#[test]
fn bad_best_share_names_its_field() {
    let e = WorkerStats::decode(&worker_raw("1K", "2K", "12x")).unwrap_err();
    assert_eq!(field_error(e), ("bestshare".to_string(), "12x".to_string()));
}

#[test]
fn negative_best_share_decodes() {
    let w = WorkerStats::decode(&worker_raw("1K", "2K", "-1")).unwrap();
    assert!(w.best_share.negative);
    assert_eq!(signed_f64(&w.best_share), -1.0);
    let mut raw = raw_user(SAMPLE);
    raw.best_share = format!("{}", -2.5f64);
    raw.worker = Vec::new();
    let stats = UserStats::decode(&raw).unwrap();
    assert_eq!(signed_f64(&stats.best_share), -2.5);
    assert!(stats.worker.is_empty());
}
