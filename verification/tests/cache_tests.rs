use h5nav::errors::H5Error;
use h5nav::page::Pagnator;
use h5nav::slice::{decompress_payload, DecodedImage, Dtype, H5Cache, H5URI, Query};
use std::io::Write;

fn uri_one(idx: usize) -> H5URI {
    H5URI {
        path: "/archives/sample.h5".to_string(),
        h5path: "/data/x".to_string(),
        query: Query::One(idx),
        dtype: Dtype::F4,
    }
}

#[test]
fn dtype_tags() {
    assert_eq!(Dtype::I4.to_string(), "i4");
    assert_eq!(Dtype::F4.to_string(), "f4");
}

#[test]
fn query_text_forms() {
    assert_eq!(Query::One(5).to_string(), "5");
    assert_eq!(Query::Range(2, 7).to_string(), "2:7");
    assert_eq!(Query::Batch(4, 3).to_string(), "4:7");
    assert_eq!(Query::One(0).to_string(), "0");
    assert_eq!(Query::One(1234567890).to_string(), "1234567890");
}

#[test]
fn uri_wire_form() {
    let u = uri_one(5);
    assert_eq!(u.to_string(), "/archives/sample.h5\t/data/x\t5\tf4");
}

#[test]
fn uri_equality_is_by_value() {
    assert_eq!(uri_one(5), uri_one(5));
    assert_ne!(uri_one(5), uri_one(6));
}

#[test]
fn request_miss_plans_batch_with_hint() {
    let cache = H5Cache::new();
    let u = uri_one(5);
    assert!(cache.request_cached(&u).is_none());
    let plan = cache.plan_fetch(&u).unwrap();
    assert_eq!(plan.query, Query::Batch(5, 32));
    assert_eq!(plan.path, u.path);
    assert_eq!(plan.h5path, u.h5path);
}

#[test]
fn request_non_single_is_refused() {
    let cache = H5Cache::new();
    let mut u = uri_one(0);
    u.query = Query::Range(0, 4);
    assert!(cache.request_cached(&u).is_none());
    assert!(cache.plan_fetch(&u).is_none());
}

#[test]
fn ingest_decodes_rgba_frames() {
    let mut cache = H5Cache::with_hint(2);
    let u = uri_one(5);
    let plan = cache.plan_fetch(&u).unwrap();
    assert_eq!(plan.query, Query::Batch(5, 2));
    // One 2x2 RGB frame is 12 samples; provide a frame and a half, so
    // index 5 decodes and index 6 is skipped.
    let samples: Vec<u8> = (0u8..18).collect();
    cache.ingest(&plan, (2, 2), &samples);
    let im = cache.request_cached(&u).unwrap();
    assert_eq!(im.width, 2);
    assert_eq!(im.height, 2);
    assert_eq!(
        im.pixels,
        vec![0, 1, 2, 255, 3, 4, 5, 255, 6, 7, 8, 255, 9, 10, 11, 255]
    );
    assert!(cache.request_cached(&uri_one(6)).is_none());
}

#[test]
fn request_idempotent_one_fetch() {
    // The idempotence scenario: one miss, one ingest, then hits only.
    let mut cache = H5Cache::new();
    let u = uri_one(5);
    let plan = cache.plan_fetch(&u).unwrap();
    let samples: Vec<u8> = vec![7; 12];
    cache.ingest(&plan, (2, 2), &samples);
    assert!(cache.plan_fetch(&u).is_none(), "second request must not fetch");
    let first: DecodedImage = cache.request_cached(&u).unwrap().clone();
    let second: DecodedImage = cache.request_cached(&u).unwrap().clone();
    assert_eq!(first.pixels, second.pixels);
    assert_eq!(first.width, second.width);
    assert_eq!(first.height, second.height);
}

#[test]
fn prefetch_coalesces_batch_window() {
    // Single(5) with hint 32 and a payload of 32 frames populates 5..37,
    // each retrievable with no further fetch.
    let mut cache = H5Cache::new();
    let u = uri_one(5);
    let plan = cache.plan_fetch(&u).unwrap();
    assert_eq!(plan.query, Query::Batch(5, 32));
    let samples: Vec<u8> = vec![1; 12 * 32];
    cache.ingest(&plan, (2, 2), &samples);
    for idx in 5..37 {
        let v = uri_one(idx);
        assert!(cache.request_cached(&v).is_some(), "index {} missing", idx);
        assert!(cache.plan_fetch(&v).is_none());
    }
    assert!(cache.request_cached(&uri_one(37)).is_none());
    assert!(cache.request_cached(&uri_one(4)).is_none());
}

#[test]
fn ingest_range_query_counts_from_start() {
    let mut cache = H5Cache::new();
    let mut u = uri_one(0);
    u.query = Query::Range(3, 5);
    let samples: Vec<u8> = vec![9; 24];
    cache.ingest(&u, (2, 2), &samples);
    assert!(cache.request_cached(&uri_one(3)).is_some());
    assert!(cache.request_cached(&uri_one(4)).is_some());
    assert!(cache.request_cached(&uri_one(5)).is_none());
}

#[test]
fn ingest_overwrites_same_key() {
    let mut cache = H5Cache::new();
    let u = uri_one(0);
    let mut batch = uri_one(0);
    batch.query = Query::Batch(0, 1);
    cache.ingest(&batch, (1, 1), &vec![1, 2, 3]);
    cache.ingest(&batch, (1, 1), &vec![9, 8, 7]);
    let im = cache.request_cached(&u).unwrap();
    assert_eq!(im.pixels, vec![9, 8, 7, 255]);
}

#[test]
fn decompress_round_trip() {
    let payload = b"striped binary payload 0123456789".to_vec();
    let mut enc = flate2::write::GzEncoder::new(Vec::new(), flate2::Compression::default());
    enc.write_all(&payload).unwrap();
    let compressed = enc.finish().unwrap();
    assert_ne!(compressed, payload);
    let out = decompress_payload(&compressed).unwrap();
    assert_eq!(out, payload);
}

#[test]
fn decompress_garbage_is_unavailable() {
    let r = decompress_payload(&vec![1, 2, 3, 4]);
    assert_eq!(r.unwrap_err(), H5Error::Unavailable);
}

#[test]
fn pagination_walks_pages() {
    let mut p = Pagnator::new(6, 20);
    assert_eq!(p.total(), 4);
    assert_eq!(p.get_range(), Some((0, 6)));
    p.inc();
    assert_eq!(p.get_range(), Some((6, 12)));
    p.inc();
    p.inc();
    assert_eq!(p.page_current, 3);
    assert_eq!(p.get_range(), Some((18, 20)));
    p.inc();
    assert_eq!(p.page_current, 3, "must not advance past the items");
    p.dec();
    assert_eq!(p.get_range(), Some((12, 18)));
}

#[test]
fn pagination_bounds() {
    let mut p = Pagnator::new(4, 4);
    assert_eq!(p.total(), 1);
    assert_eq!(p.get_range(), Some((0, 4)));
    p.dec();
    assert_eq!(p.page_current, 0);
    p.inc();
    assert_eq!(p.page_current, 0);
    let empty = Pagnator::new(4, 0);
    assert_eq!(empty.total(), 0);
    assert_eq!(empty.get_range(), None);
}
