//! Groups a palette's colors into material buckets, one per distinct material-level key, and
//! lays out each bucket's colors as texels of an atlas row.
use vstd::prelude::*;

verus! {

/// The ids `c < n` whose key is `key`, in increasing order.
pub open spec fn ids_with_key(keys: Seq<(u64, u64)>, n: int, key: (u64, u64)) -> Seq<u8>
    decreases n,
{
    if n <= 0 {
        Seq::empty()
    } else {
        ids_with_key(keys, n - 1, key) + if keys[n - 1] == key {
            seq![(n - 1) as u8]
        } else {
            Seq::empty()
        }
    }
}

/// The distinct keys among the first `n`, in order of first appearance.
pub open spec fn distinct_keys(keys: Seq<(u64, u64)>, n: int) -> Seq<(u64, u64)>
    decreases n,
{
    if n <= 0 {
        Seq::empty()
    } else {
        let prev = distinct_keys(keys, n - 1);
        if prev.contains(keys[n - 1]) {
            prev
        } else {
            prev.push(keys[n - 1])
        }
    }
}

/// A group of palette colors sharing the same material-level key.
pub struct MaterialBucket {
    /// The key the bucket's colors share.
    pub key: (u64, u64),
    /// Palette color ids, in atlas texel order.
    pub colors: Vec<u8>,
}

/// The buckets of a palette and, for every color id, its bucket and texel.
pub struct PaletteLayout {
    pub buckets: Vec<MaterialBucket>,
    /// Indexed by color id: (bucket index, texel index within that bucket's atlas row).
    pub color_refs: Vec<(usize, u32)>,
}

/// `layout` groups `keys`: one bucket per distinct key, in order of first appearance, holding
/// the ids with that key in increasing order; each id refers to its bucket and its position there.
pub open spec fn layout_of(keys: Seq<(u64, u64)>, layout: PaletteLayout) -> bool {
    let dk = distinct_keys(keys, keys.len() as int);
    &&& layout.buckets@.len() == dk.len()
    &&& forall|b: int|
        0 <= b < dk.len() ==> (#[trigger] layout.buckets@[b]).key == dk[b] && layout.buckets@[b].colors@
            == ids_with_key(keys, keys.len() as int, dk[b])
    &&& layout.color_refs@.len() == keys.len()
    &&& forall|c: int|
        0 <= c < keys.len() ==> {
            let r = #[trigger] layout.color_refs@[c];
            &&& 0 <= r.0 < dk.len()
            &&& dk[r.0 as int] == keys[c]
            &&& r.1 == ids_with_key(keys, c, keys[c]).len()
        }
}

proof fn lemma_distinct_keys(keys: Seq<(u64, u64)>, n: int)
    requires
        0 <= n <= keys.len(),
    ensures
        distinct_keys(keys, n).no_duplicates(),
        forall|c: int| 0 <= c < n ==> distinct_keys(keys, n).contains(#[trigger] keys[c]),
        forall|b: int| 0 <= b < distinct_keys(keys, n).len() ==> exists|c: int| 0 <= c < n && keys[c] == #[trigger] distinct_keys(keys, n)[b],
    decreases n,
{
    if n > 0 {
        lemma_distinct_keys(keys, n - 1);
        let prev = distinct_keys(keys, n - 1);
        let cur = distinct_keys(keys, n);
        if !prev.contains(keys[n - 1]) {
            assert forall|c: int| 0 <= c < n implies cur.contains(#[trigger] keys[c]) by {
                if c < n - 1 {
                    let j = choose|j: int| 0 <= j < prev.len() && prev[j] == keys[c];
                    assert(cur[j] == keys[c]);
                } else {
                    assert(cur[prev.len() as int] == keys[c]);
                }
            }
            assert forall|b: int| 0 <= b < cur.len() implies exists|c: int| 0 <= c < n && keys[c] == #[trigger] cur[b] by {
                if b < prev.len() {
                    assert(cur[b] == prev[b]);
                } else {
                    assert(keys[n - 1] == cur[b]);
                }
            }
        } else {
            assert forall|c: int| 0 <= c < n implies cur.contains(#[trigger] keys[c]) by {
                if c < n - 1 {
                } else {
                }
            }
        }
    }
}

proof fn lemma_ids_absent(keys: Seq<(u64, u64)>, n: int, key: (u64, u64))
    requires
        0 <= n <= keys.len(),
        forall|c: int| 0 <= c < n ==> keys[c] != key,
    ensures
        ids_with_key(keys, n, key) == Seq::<u8>::empty(),
    decreases n,
{
    if n > 0 {
        lemma_ids_absent(keys, n - 1, key);
    }
}

proof fn lemma_ids_len(keys: Seq<(u64, u64)>, n: int, key: (u64, u64))
    requires
        0 <= n,
    ensures
        ids_with_key(keys, n, key).len() <= n,
    decreases n,
{
    if n > 0 {
        lemma_ids_len(keys, n - 1, key);
    }
}

proof fn lemma_ids_below(keys: Seq<(u64, u64)>, n: int, key: (u64, u64))
    requires
        0 <= n <= 256,
    ensures
        forall|i: int| 0 <= i < ids_with_key(keys, n, key).len() ==> (#[trigger] ids_with_key(keys, n, key)[i] as int) < n,
    decreases n,
{
    if n > 0 {
        lemma_ids_below(keys, n - 1, key);
        let prev = ids_with_key(keys, n - 1, key);
        let cur = ids_with_key(keys, n, key);
        assert forall|i: int| 0 <= i < cur.len() implies (#[trigger] cur[i] as int) < n by {
            if i < prev.len() {
                assert(cur[i] == prev[i]);
            } else {
                assert(cur[i] == (n - 1) as u8);
            }
        }
    }
}

/// Every bucket of the layout of at most 256 keys holds from 1 to 256 ids, each naming one of the
/// keys.
pub proof fn lemma_layout_buckets(keys: Seq<(u64, u64)>, layout: PaletteLayout)
    requires
        layout_of(keys, layout),
        keys.len() <= 256,
    ensures
        forall|b: int|
            0 <= b < layout.buckets@.len() ==> (#[trigger] layout.buckets@[b]).colors@.len() > 0
                && layout.buckets@[b].colors@.len() <= 256 && forall|i: int|
                0 <= i < layout.buckets@[b].colors@.len() ==> (#[trigger] layout.buckets@[b].colors@[i] as int)
                    < keys.len(),
{
    let n = keys.len() as int;
    lemma_distinct_keys(keys, n);
    let dk = distinct_keys(keys, n);
    assert forall|b: int| 0 <= b < layout.buckets@.len() implies (#[trigger] layout.buckets@[b]).colors@.len() > 0
        && layout.buckets@[b].colors@.len() <= 256 && forall|i: int|
        0 <= i < layout.buckets@[b].colors@.len() ==> (#[trigger] layout.buckets@[b].colors@[i] as int)
            < keys.len() by {
        let c = choose|c: int| 0 <= c < n && keys[c] == dk[b];
        lemma_ids_len_grows(keys, c, n, dk[b]);
        lemma_ids_len(keys, n, dk[b]);
        lemma_ids_below(keys, n, dk[b]);
    }
}

/// Groups color ids by key: a bucket per distinct key, in order of first appearance, each
/// listing its ids in increasing order; every id refers to its bucket and its texel (its position
/// in the bucket).
pub fn build_palette_layout(keys: &Vec<(u64, u64)>) -> (layout: PaletteLayout)
    requires
        keys@.len() <= 256,
    ensures
        layout_of(keys@, layout),
{
    let mut buckets: Vec<MaterialBucket> = Vec::new();
    let mut color_refs: Vec<(usize, u32)> = Vec::new();
    let mut c: usize = 0;
    while c < keys.len()
        invariant
            c <= keys@.len(),
            keys@.len() <= 256,
            buckets@.len() == distinct_keys(keys@, c as int).len(),
            forall|b: int|
                0 <= b < buckets@.len() ==> (#[trigger] buckets@[b]).key == distinct_keys(keys@, c as int)[b]
                    && buckets@[b].colors@ == ids_with_key(keys@, c as int, buckets@[b].key),
            color_refs@.len() == c,
            forall|c2: int|
                0 <= c2 < c ==> {
                    let r = #[trigger] color_refs@[c2];
                    &&& 0 <= r.0 < distinct_keys(keys@, c as int).len()
                    &&& distinct_keys(keys@, c as int)[r.0 as int] == keys@[c2]
                    &&& r.1 == ids_with_key(keys@, c2, keys@[c2]).len()
                },
        decreases keys@.len() - c,
    {
        let key = keys[c];
        proof {
            lemma_distinct_keys(keys@, c as int);
        }
        let ghost dk = distinct_keys(keys@, c as int);
        let mut found: Option<usize> = None;
        let mut b: usize = 0;
        while b < buckets.len()
            invariant
                b <= buckets@.len(),
                buckets@.len() == dk.len(),
                forall|j: int| 0 <= j < buckets@.len() ==> (#[trigger] buckets@[j]).key == dk[j],
                found matches Some(f) ==> f < buckets@.len() && dk[f as int] == key,
                found is None ==> forall|j: int| 0 <= j < b ==> dk[j] != key,
            decreases buckets@.len() - b,
        {
            if found.is_none() && buckets[b].key.0 == key.0 && buckets[b].key.1 == key.1 {
                found = Some(b);
            }
            b = b + 1;
        }
        let ghost old_buckets = buckets@;
        let bucket = match found {
            Some(f) => f,
            None => {
                assert(!dk.contains(key));
                buckets.push(MaterialBucket { key, colors: Vec::new() });
                buckets.len() - 1
            },
        };
        let ghost next_dk = distinct_keys(keys@, c + 1);
        proof {
            lemma_ids_len(keys@, c as int, key);
            assert(next_dk == if dk.contains(key) { dk } else { dk.push(key) });
        }
        proof {
            if found is None {
                assert forall|c2: int| 0 <= c2 < c implies keys@[c2] != key by {
                    assert(dk.contains(keys@[c2]));
                }
                lemma_ids_absent(keys@, c as int, key);
            }
            assert(buckets@[bucket as int].colors@ == ids_with_key(keys@, c as int, key));
        }
        let texel = buckets[bucket].colors.len() as u32;
        buckets[bucket].colors.push(c as u8);
        color_refs.push((bucket, texel));
        proof {
            assert forall|k2: (u64, u64)| true implies #[trigger] ids_with_key(keys@, c + 1, k2) == ids_with_key(
                keys@,
                c as int,
                k2,
            ) + if keys@[c as int] == k2 {
                seq![c as u8]
            } else {
                Seq::empty()
            } by {}
            assert forall|j: int| 0 <= j < buckets@.len() implies (#[trigger] buckets@[j]).key == next_dk[j]
                && buckets@[j].colors@ == ids_with_key(keys@, c + 1, buckets@[j].key) by {
                if j == bucket {
                    assert(buckets@[j].colors@ =~= ids_with_key(keys@, c as int, key).push(c as u8));
                } else {
                    if j < old_buckets.len() {
                        assert(buckets@[j] == old_buckets[j]);
                        assert(buckets@[j].key != key);
                    }
                    assert(buckets@[j].colors@ =~= ids_with_key(keys@, c + 1, buckets@[j].key));
                }
            }
            assert forall|c2: int| 0 <= c2 < c + 1 implies {
                let r = #[trigger] color_refs@[c2];
                &&& 0 <= r.0 < next_dk.len()
                &&& next_dk[r.0 as int] == keys@[c2]
                &&& r.1 == ids_with_key(keys@, c2, keys@[c2]).len()
            } by {
                if c2 < c {
                    let r = color_refs@[c2];
                    assert(dk[r.0 as int] == next_dk[r.0 as int]);
                }
            }
        }
        c = c + 1;
    }
    PaletteLayout { buckets, color_refs }
}

proof fn lemma_ids_len_grows(keys: Seq<(u64, u64)>, a: int, b: int, key: (u64, u64))
    requires
        0 <= a <= b <= keys.len(),
    ensures
        ids_with_key(keys, a, key).len() <= ids_with_key(keys, b, key).len(),
        a < b && keys[a] == key ==> ids_with_key(keys, a, key).len() < ids_with_key(keys, b, key).len(),
    decreases b - a,
{
    if a < b {
        lemma_ids_len_grows(keys, a, b - 1, key);
        if keys[a] == key && a == b - 1 {
            assert(ids_with_key(keys, b, key).len() == ids_with_key(keys, a, key).len() + 1);
        }
    }
}

/// Two colors share a material bucket exactly when they share the bucket key (index of
/// refraction and emissive strength), and colors of one bucket get distinct atlas texels.
pub proof fn lemma_buckets_follow_keys(keys: Seq<(u64, u64)>, layout: PaletteLayout, c1: int, c2: int)
    requires
        layout_of(keys, layout),
        0 <= c1 < keys.len(),
        0 <= c2 < keys.len(),
    ensures
        layout.color_refs@[c1].0 == layout.color_refs@[c2].0 <==> keys[c1] == keys[c2],
        c1 != c2 && keys[c1] == keys[c2] ==> layout.color_refs@[c1].1 != layout.color_refs@[c2].1,
{
    lemma_distinct_keys(keys, keys.len() as int);
    let dk = distinct_keys(keys, keys.len() as int);
    let r1 = layout.color_refs@[c1];
    let r2 = layout.color_refs@[c2];
    assert(dk[r1.0 as int] == keys[c1]);
    assert(dk[r2.0 as int] == keys[c2]);
    if c1 < c2 && keys[c1] == keys[c2] {
        lemma_ids_len_grows(keys, c1, c2, keys[c1]);
        lemma_ids_len(keys, c2, keys[c2]);
    }
    if c2 < c1 && keys[c1] == keys[c2] {
        lemma_ids_len_grows(keys, c2, c1, keys[c2]);
        lemma_ids_len(keys, c1, keys[c1]);
    }
}

} // verus!
