use rush::codec::DecodeError;
use rush::lsh::random_projection::{sign_bit, SeqDecoder};
use rush::lsh::{
    CacheItem, Cacheable, LocalitySensitiveHashDatabase, LocalitySensitiveHashTable,
    RandomProjection, StableHashFunction, Vector,
};
use rush::simd::{SimdNativeType, SimdTypeProxy, SimdVecImpl};

/// Four lanes of hardware single precision.
#[derive(Debug, Clone, Copy)]
struct M128([f32; 4]);

impl SimdNativeType for M128 {
    fn lanes() -> usize {
        4
    }
    fn setzero() -> Self {
        M128([0.0; 4])
    }
    fn load(elts: &Vec<u32>) -> Self {
        let mut x = [0f32; 4];
        for i in 0..4 {
            x[i] = f32::from_bits(elts[i]);
        }
        M128(x)
    }
    fn extract(self, i: usize) -> u32 {
        self.0[i].to_bits()
    }
    fn add(self, rhs: Self) -> Self {
        let mut x = self.0;
        for i in 0..4 {
            x[i] = self.0[i] + rhs.0[i];
        }
        M128(x)
    }
    fn sub(self, rhs: Self) -> Self {
        let mut x = self.0;
        for i in 0..4 {
            x[i] = self.0[i] - rhs.0[i];
        }
        M128(x)
    }
    fn mul(self, rhs: Self) -> Self {
        let mut x = self.0;
        for i in 0..4 {
            x[i] = self.0[i] * rhs.0[i];
        }
        M128(x)
    }
    fn div(self, rhs: Self) -> Self {
        let mut x = self.0;
        for i in 0..4 {
            x[i] = self.0[i] / rhs.0[i];
        }
        M128(x)
    }
    fn fmadd(self, b: Self, c: Self) -> Self {
        let mut x = self.0;
        for i in 0..4 {
            x[i] = self.0[i].mul_add(b.0[i], c.0[i]);
        }
        M128(x)
    }
    fn reduce_add(self, sum: u32) -> u32 {
        let a = self.0;
        (f32::from_bits(sum) + ((a[0] + a[1]) + (a[2] + a[3]))).to_bits()
    }
    fn scale(self, c: u32) -> Self {
        let c = f32::from_bits(c);
        let mut x = self.0;
        for i in 0..4 {
            x[i] = c * self.0[i];
        }
        M128(x)
    }
    fn scalar_sqrt(x: u32) -> u32 {
        f32::from_bits(x).sqrt().to_bits()
    }
    fn scalar_sub(x: u32, y: u32) -> u32 {
        (f32::from_bits(x) - f32::from_bits(y)).to_bits()
    }
    fn scalar_div(x: u32, y: u32) -> u32 {
        (f32::from_bits(x) / f32::from_bits(y)).to_bits()
    }
}

#[allow(non_camel_case_types)]
type f32x4 = SimdTypeProxy<M128>;

fn bits(v: Vec<f32>) -> Vec<u32> {
    v.into_iter().map(|x| x.to_bits()).collect()
}

fn floats(v: Vec<u32>) -> Vec<f32> {
    v.into_iter().map(f32::from_bits).collect()
}

type V16 = SimdVecImpl<f32x4, 4>;

fn collect16(v: Vec<f32>) -> V16 {
    V16::from_iter(bits(v))
}

fn norm(v: &Vec<u32>) -> f32 {
    floats(v.clone()).iter().fold(0f32, |acc, x| acc + x * x).sqrt()
}

#[test]
fn random_projection_test_random_projection_hash() {
}

#[test]
fn test_create_random_projection() {
    let rp = RandomProjection::<SimdVecImpl<f32x4, 8>>::new(8 * 4);
    let u = rp.vector();
    let norm = f32::from_bits(u.dot(u)).sqrt();
    assert!((norm - 1f32).abs() < 1e-5);
}

#[test]
fn unit_vectors_have_unit_norm_over_many_samples() {
    for _ in 0..10_000 {
        let rp = RandomProjection::<SimdVecImpl<f32x4, 8>>::new(32);
        let u = rp.vector();
        let squared = f32::from_bits(u.dot(u));
        assert!((squared - 1.0).abs() <= 1e-5);
    }
}

#[test]
fn test_rp_ser_de() {
    let rp = RandomProjection::<SimdVecImpl<f32x4, 8>>::new(8 * 4);
    let ser = serde_json::to_string(&rp.serialize()).unwrap();
    let bytes: Vec<u8> = serde_json::from_str(&ser).unwrap();
    let de = RandomProjection::<SimdVecImpl<f32x4, 8>>::deserialize(&bytes).unwrap();
    assert_eq!(rp.vector(), de.vector());
}

#[test]
fn projection_serialization_layout() {
    let rp = RandomProjection::<V16>::new(16);
    let bytes = rp.serialize();
    assert_eq!(bytes.len(), 4 + 16 * 4);
    assert_eq!(&bytes[0..4], &16u32.to_le_bytes());
    let elts = rp.vector().to_vec();
    for i in 0..16 {
        assert_eq!(&bytes[4 + 4 * i..8 + 4 * i], &elts[i].to_le_bytes());
    }
}

#[test]
fn projection_deserialization_refuses() {
    type P = RandomProjection<SimdVecImpl<f32x4, 1>>;
    assert_eq!(P::deserialize(&[1, 0]).err(), Some(DecodeError::TooShort));
    assert_eq!(P::deserialize(&[2, 0, 0, 0, 0, 0, 128, 63]).err(), Some(DecodeError::InvalidLength));
    let mut two = vec![4u8, 0, 0, 0];
    for x in [2f32, 0.0, 0.0, 0.0] {
        two.extend_from_slice(&x.to_le_bytes());
    }
    assert_eq!(P::deserialize(&two).err(), Some(DecodeError::InvalidValue));
    let mut zero = vec![4u8, 0, 0, 0];
    zero.extend_from_slice(&[0u8; 16]);
    assert_eq!(P::deserialize(&zero).err(), Some(DecodeError::InvalidValue));
    let mut unit = vec![4u8, 0, 0, 0];
    for x in [0.6f32, 0.0, -0.8, 0.0] {
        unit.extend_from_slice(&x.to_le_bytes());
    }
    let p = P::deserialize(&unit).unwrap();
    assert_eq!(floats(p.vector().to_vec()), vec![0.6, 0.0, -0.8, 0.0]);
    let mut near = vec![4u8, 0, 0, 0];
    for x in [1.00002f32, 0.0, 0.0, 0.0] {
        near.extend_from_slice(&x.to_le_bytes());
    }
    assert_eq!(P::deserialize(&near).err(), Some(DecodeError::InvalidValue));
    let mut one = vec![1u8, 0, 0, 0];
    one.extend_from_slice(&1f32.to_le_bytes());
    assert_eq!(floats(P::deserialize(&one).unwrap().vector().to_vec()), vec![1.0, 0.0, 0.0, 0.0]);
}

#[test]
fn byte_sequence_decoder_agrees_with_deserialize() {
    type P = RandomProjection<V16>;
    let rp = P::new(16);
    let bytes = rp.serialize();
    let mut dec = SeqDecoder::new();
    for b in &bytes {
        dec.feed(*b);
    }
    let de = dec.finish::<V16>().unwrap();
    assert!(de.vector().equals(rp.vector()));

    let mut short = SeqDecoder::new();
    short.feed(16);
    assert_eq!(short.finish::<V16>().err(), Some(DecodeError::TooShort));

    let mut cut = SeqDecoder::new();
    for b in &bytes[..bytes.len() - 1] {
        cut.feed(*b);
    }
    assert_eq!(cut.finish::<V16>().err(), Some(DecodeError::InvalidLength));

    let mut long = SeqDecoder::new();
    for b in &bytes {
        long.feed(*b);
    }
    for _ in 0..4 {
        long.feed(0);
    }
    assert_eq!(long.finish::<V16>().err(), Some(DecodeError::InvalidLength));

    let mut wrong = SeqDecoder::new();
    for b in 4u32.to_le_bytes().iter().chain([3f32, 0.0, 0.0, 4.0].iter().flat_map(|x| x.to_le_bytes()).collect::<Vec<u8>>().iter()) {
        wrong.feed(*b);
    }
    assert_eq!(wrong.finish::<V16>().err(), Some(DecodeError::InvalidValue));
}

#[test]
fn lshlib_test_create_unit_vector() {
    let rp = RandomProjection::<V16>::new(10);
    let v = rp.vector().to_vec();
    assert_eq!(v.len(), 16);
    assert!(floats(v.clone())[..10].iter().fold(true, |acc, elt| acc && (&-1.0 < elt) && (elt < &1.0)));
    assert!(v[10..].iter().all(|w| *w == 0));
    assert!((norm(&v) - 1.0).abs() < 1e-5);
}

#[test]
fn lshlib_test_random_projection_hash() {
    let proj = RandomProjection::<SimdVecImpl<f32x4, 1>>::new(3);
    let v = SimdVecImpl::<f32x4, 1>::from_iter(bits(vec![2.0, 2.0, 2.0]));
    proj.hash(&v);
}

#[test]
fn projection_hash_is_the_sign_of_the_dot_product() {
    for _ in 0..200 {
        let proj = RandomProjection::<V16>::new(16);
        let v = collect16((0..16).map(|i| (i as f32) - 7.5).collect());
        let h = proj.hash(&v);
        assert!(h == 0 || h == 1);
        let dot = f32::from_bits(proj.vector().dot(&v));
        assert_eq!(h, if dot > 0.0 { 1 } else { 0 });
    }
    assert_eq!(sign_bit(0f32.to_bits()), 0);
    assert_eq!(sign_bit((-0f32).to_bits()), 0);
    assert_eq!(sign_bit(1e-45f32.to_bits()), 1);
    assert_eq!(sign_bit(f32::INFINITY.to_bits()), 1);
    assert_eq!(sign_bit(f32::NAN.to_bits()), 0);
    assert_eq!(sign_bit((-1f32).to_bits()), 0);
}

#[test]
fn lshlib_test_stable_hash_function() {
    let hashfn = StableHashFunction::<SimdVecImpl<f32x4, 192>>::new(64, 768);
    assert_eq!(hashfn.bits(), 64);
}

#[test]
fn test_insert_to_stable_hash_table() {
    let f = StableHashFunction::<V16>::new(64, 16);
    let proj = RandomProjection::<V16>::new(16);
    let random_unit = proj.vector();
    let _ = f.hash(random_unit);
}

#[test]
fn stable_hash_sets_bit_i_from_projection_i() {
    for b in [0usize, 1, 5, 63, 64] {
        let f = StableHashFunction::<V16>::new(b, 16);
        let v = collect16((0..16).map(|i| ((i * 7) % 5) as f32 - 2.0).collect());
        let h = f.hash(&v);
        if b < 64 {
            assert_eq!(h >> b, 0);
        }
        assert_eq!(f.hash(&v), h);
    }
}

#[test]
fn collinear_vectors_hash_alike_and_antipodal_ones_apart() {
    for _ in 0..50 {
        let f = StableHashFunction::<V16>::new(64, 16);
        let v: Vec<f32> = (0..16).map(|i| (i as f32) * 0.5 - 3.1).collect();
        let scaled: Vec<f32> = v.iter().map(|x| 4.0 * x).collect();
        let opposite: Vec<f32> = v.iter().map(|x| -x).collect();
        let h = f.hash(&collect16(v));
        assert_eq!(h, f.hash(&collect16(scaled)));
        assert_eq!(h ^ f.hash(&collect16(opposite)), u64::MAX);
    }
    let f = StableHashFunction::<V16>::new(10, 16);
    let v: Vec<f32> = (0..16).map(|i| (i as f32) * 0.5 - 3.1).collect();
    let opposite: Vec<f32> = v.iter().map(|x| -x).collect();
    assert_eq!(f.hash(&collect16(v)) ^ f.hash(&collect16(opposite)), (1u64 << 10) - 1);
}

#[test]
fn test_lsh_table_insert() {
    let mut table = LocalitySensitiveHashTable::<V16>::new(16);

    // These two items must necessarily hash to two separate values,
    // as they point in opposite directions
    let item1 = CacheItem::new(collect16(vec![1f32; 16]));
    let item2 = CacheItem::new(collect16(vec![-1f32; 16]));

    table.insert(&item1);
    table.insert(&item2);

    assert_eq!(table.bucket_count(), 2);
}

/// Builds a table of three items and asks for the buckets of two queries
/// that lie next to them; the buckets are those of a freshly sampled hash
/// function.
fn table_query_attempt() -> (usize, Option<usize>, Option<usize>) {
    let mut table = LocalitySensitiveHashTable::<V16>::new(16);

    // The next two items will hash to the same value because they are colinear.
    let item1 = CacheItem::new(collect16(vec![1f32; 16]));
    let item2 = CacheItem::new(collect16(vec![2f32; 16]));
    // This item will go to its own entry
    let item3 = CacheItem::new(collect16(vec![-1f32; 16]));

    table.insert(&item1);
    table.insert(&item2);
    table.insert(&item3);

    let mut qtemp = vec![1f32; 16];
    let mut qtemp_op = vec![-1f32; 16];
    qtemp[0] = 0.99f32;
    qtemp_op[0] = -0.99f32;
    let q = collect16(qtemp);
    let q_op = collect16(qtemp_op);

    let q_result = table.query_set(&q).map(|b| b.len());
    let qop_result = table.query_set(&q_op).map(|b| b.len());
    (table.bucket_count(), q_result, qop_result)
}

#[test]
fn test_lsh_table_query() {
    // A query that is close to an item, but not colinear with it, shares
    // all 64 sign bits with it for most hash functions, not for all: a
    // fresh table is tried when one of the 64 projections separates them.
    let mut outcome = table_query_attempt();
    let mut attempts = 1;
    while (outcome.1.is_none() || outcome.2.is_none()) && attempts < 32 {
        outcome = table_query_attempt();
        attempts += 1;
    }
    // Assert there are two distinct lsh values in the table
    assert_eq!(outcome.0, 2);
    // Assert the first query has a result set with two items
    assert_eq!(outcome.1.unwrap(), 2);
    // Assert the second query has a result set with one item
    assert_eq!(outcome.2.unwrap(), 1);
}

#[test]
fn table_buckets_are_sets_of_content_ids() {
    let mut table = LocalitySensitiveHashTable::<V16>::new(16);
    let a = CacheItem::new(collect16(vec![1f32; 16]));
    let again = CacheItem::new(collect16(vec![1f32; 16]));
    let b = CacheItem::new(collect16(vec![2f32; 16]));
    let c = CacheItem::new(collect16(vec![-1f32; 16]));
    assert!(a.same_item(&again));
    assert!(!a.same_item(&b));
    assert_eq!(a.id(), a.value().cache_id());
    table.insert(&a);
    table.insert(&again);
    table.insert(&b);
    table.insert(&a);
    table.insert(&c);
    assert_eq!(table.bucket_count(), 2);
    let bucket = table.query_set(a.value()).unwrap();
    assert_eq!(bucket, &vec![a.id(), b.id()]);
    assert_eq!(table.query_set(b.value()).unwrap(), &vec![a.id(), b.id()]);
    assert_eq!(table.query_set(c.value()).unwrap(), &vec![c.id()]);
    let empty = LocalitySensitiveHashTable::<V16>::new(16);
    assert!(empty.query_set(a.value()).is_none());
    assert_eq!(empty.bucket_count(), 0);
}

#[test]
fn test_lshdb_query() {
    let mut db = LocalitySensitiveHashDatabase::<V16>::new(32, 16);

    // The next two items will hash to the same value because they are colinear.
    let item1 = collect16(vec![1f32; 16]);
    let item1_copy = collect16(vec![1f32; 16]);
    let item2 = collect16(vec![2f32; 16]);
    // This item will go to its own entry
    let item3 = collect16(vec![-1f32; 16]);

    db.insert(item1);
    db.insert(item2);
    db.insert(item3);

    let mut qtemp = vec![1f32; 16];
    qtemp[0] = 0.99f32;
    let q = collect16(qtemp);

    let q_result = db.query(&q).unwrap();

    assert_eq!(*q_result, item1_copy);
}

#[test]
fn lshlib_test_euclidian_distance() {
    type V = SimdVecImpl<f32x4, 1>;
    let v1 = V::from_iter(bits(vec![1.0, 0.0]));
    let v2 = V::from_iter(bits(vec![0.0, 0.0]));
    let v3 = V::from_iter(bits(vec![1.0, 1.0]));
    assert_eq!(f32::from_bits(v1.distance(&v2)), 1.0);
    assert_eq!(f32::from_bits(v1.distance(&v1)), 0.0);
    assert_eq!(f32::from_bits(v1.distance(&v3)), 1.0);
}

#[test]
fn lshlib_test_stable_hash_table_insert() {
    let mut table = LocalitySensitiveHashTable::<SimdVecImpl<f32x4, 1>>::with_bits(64, 3);
    let rc = CacheItem::new(SimdVecImpl::<f32x4, 1>::from_iter(bits(vec![1.0, 2.0, 3.0])));
    table.insert(&rc);
    assert_eq!(table.bucket_count(), 1);
}

#[test]
fn lshlib_test_stable_hash_table_query() {
    type V = SimdVecImpl<f32x4, 1>;
    let mut db = LocalitySensitiveHashDatabase::<V>::with_bits(32, 4, 3);
    db.insert(V::from_iter(bits(vec![1.0, 2.0, 3.0])));

    let exact_query = V::from_iter(bits(vec![1.0, 2.0, 3.0]));
    let result = db.query(&exact_query);
    assert!(match result {
        Some(item) => (item == &exact_query),
        None => false,
    });

    let item2 = V::from_iter(bits(vec![1.0, 2.0, 10.0]));
    db.insert(V::from_iter(bits(vec![1.0, 2.0, 10.0])));
    let approx_query1 = V::from_iter(bits(vec![1.0, 2.0, 3.1]));
    let approx_query2 = V::from_iter(bits(vec![1.0, 2.0, 11.0]));
    let maybe_result1 = db.query(&approx_query1);
    let maybe_result2 = db.query(&approx_query2);
    assert!(match maybe_result1 {
        Some(item) => (item == &exact_query),
        None => false,
    });
    assert!(match maybe_result2 {
        Some(item) => (item == &item2),
        None => false,
    });
}

#[test]
fn lshlib_test_lsh_db_insert() {
    type V = SimdVecImpl<f32x4, 192>;
    let mut lsh_db = LocalitySensitiveHashDatabase::<V>::with_bits(16, 64, 768);
    let v1 = vec![1.0; 768];
    lsh_db.insert(V::from_iter(bits(v1)));
    let len1 = lsh_db.len();
    assert_eq!(len1, 1);

    let mut v2 = vec![1.0; 768];
    v2[10] = 0.2;
    lsh_db.insert(V::from_iter(bits(v2)));
    let len2 = lsh_db.len();
    assert_eq!(len2, 2);
}

#[test]
fn insertion_is_idempotent() {
    let mut db = LocalitySensitiveHashDatabase::<V16>::new(8, 16);
    assert_eq!(db.len(), 0);
    db.insert(collect16(vec![0.5; 16]));
    db.insert(collect16(vec![0.5; 16]));
    assert_eq!(db.len(), 1);
    db.insert(collect16(vec![0.25; 16]));
    db.insert(collect16(vec![0.5; 16]));
    db.insert(collect16(vec![0.25; 16]));
    assert_eq!(db.len(), 2);
}

#[test]
fn len_counts_distinct_content_ids() {
    let mut db = LocalitySensitiveHashDatabase::<V16>::new(4, 16);
    let mut ids = std::collections::HashSet::new();
    for i in 0..40 {
        let v = collect16((0..16).map(|k| ((i % 13) * 16 + k) as f32).collect());
        ids.insert(v.cache_id());
        db.insert(v);
        assert_eq!(db.len(), ids.len());
    }
    assert_eq!(db.len(), 13);
}

#[test]
fn query_misses_when_no_bucket_is_shared() {
    let empty = LocalitySensitiveHashDatabase::<V16>::new(32, 16);
    assert!(empty.query(&collect16(vec![1.0; 16])).is_none());
    let none = LocalitySensitiveHashDatabase::<V16>::new(0, 16);
    assert!(none.query(&collect16(vec![1.0; 16])).is_none());
    let mut db = LocalitySensitiveHashDatabase::<V16>::new(32, 16);
    db.insert(collect16(vec![1.0; 16]));
    assert!(db.query(&collect16(vec![-1.0; 16])).is_none());
    assert!(db.query(&collect16(vec![3.0; 16])).unwrap().equals(&collect16(vec![1.0; 16])));
}

#[test]
fn query_picks_the_nearest_candidate_and_the_first_of_equals() {
    let mut db = LocalitySensitiveHashDatabase::<V16>::new(8, 16);
    db.insert(collect16(vec![4.0; 16]));
    db.insert(collect16(vec![1.0; 16]));
    db.insert(collect16(vec![2.0; 16]));
    db.insert(collect16(vec![8.0; 16]));
    assert!(db.query(&collect16(vec![1.4; 16])).unwrap().equals(&collect16(vec![1.0; 16])));
    assert!(db.query(&collect16(vec![1.6; 16])).unwrap().equals(&collect16(vec![2.0; 16])));
    assert!(db.query(&collect16(vec![100.0; 16])).unwrap().equals(&collect16(vec![8.0; 16])));
    // 3.0 is as far from 4.0 as from 2.0; 4.0 was inserted first.
    assert!(db.query(&collect16(vec![3.0; 16])).unwrap().equals(&collect16(vec![4.0; 16])));
    // 1.5 is as far from 1.0 as from 2.0; 1.0 was inserted first.
    assert!(db.query(&collect16(vec![1.5; 16])).unwrap().equals(&collect16(vec![1.0; 16])));
}

#[test]
fn the_number_of_projections_is_configurable() {
    let mut db = LocalitySensitiveHashDatabase::<V16>::with_bits(4, 3, 16);
    for i in 0..32 {
        db.insert(collect16((0..16).map(|k| ((i * 16 + k) % 37) as f32 - 18.0).collect()));
    }
    assert_eq!(db.len(), 32);
    let mut table = LocalitySensitiveHashTable::<V16>::with_bits(3, 16);
    for i in 0..32 {
        let v = collect16((0..16).map(|k| ((i * 16 + k) % 37) as f32 - 18.0).collect());
        table.insert(&CacheItem::new(v));
    }
    assert!(table.bucket_count() <= 8);
    let none = LocalitySensitiveHashTable::<V16>::with_bits(0, 16);
    assert!(none.query_set(&collect16(vec![1.0; 16])).is_none());
    let mut one = LocalitySensitiveHashTable::<V16>::with_bits(0, 16);
    one.insert(&CacheItem::new(collect16(vec![1.0; 16])));
    one.insert(&CacheItem::new(collect16(vec![-1.0; 16])));
    assert_eq!(one.bucket_count(), 1);
    assert_eq!(one.query_set(&collect16(vec![5.0; 16])).unwrap().len(), 2);
}
