//! Bitmask tags for NPC hostiles, used to gate ship hull abilities (e.g. Borg Sphere vs
//! Conqueror Borg).

use vstd::prelude::*;
use crate::text::{
    chars_eq, str_chars, to_lowercase, trim_seq, trim_str, unicode_lowercase, views,
};

verus! {

/// Conqueror Borg Suppressor / Obliterator and related hostiles.
pub const HOSTILE_TAG_MASK_CONQUEROR_BORG: u32 = 0x1;

/// Conqueror Borg Suppressor family.
pub const HOSTILE_TAG_MASK_CONQUEROR_BORG_SUPPRESSOR: u32 = 0x2;

/// Conqueror Borg Obliterator family.
pub const HOSTILE_TAG_MASK_CONQUEROR_BORG_OBLITERATOR: u32 = 0x4;

/// Aggregation faction hostiles (hyperthermic decay + Recon Locus stabilizer).
pub const HOSTILE_TAG_MASK_AGGREGATION_HOSTILE: u32 = 0x8;

/// Hostiles whose listed officers contribute no combat effects (crew nullification).
pub const HOSTILE_TAG_MASK_CREW_NULLIFICATION: u32 = 0x10;

/// Replaces every `-` by `_`.
pub open spec fn dash_to_underscore(s: Seq<char>) -> Seq<char> {
    s.map_values(|c: char| if c == '-' { '_' } else { c })
}

/// The normal form of a data slug: trimmed, lower-cased, `-` replaced by `_`.
pub open spec fn normalize_slug(s: Seq<char>) -> Seq<char> {
    dash_to_underscore(unicode_lowercase(trim_seq(s)))
}

/// The tag bit of a normalized slug, if the slug is known.
pub open spec fn tag_bit_for_normalized(n: Seq<char>) -> Option<u32> {
    if n == "conqueror_borg"@ {
        Some(HOSTILE_TAG_MASK_CONQUEROR_BORG)
    } else if n == "conqueror_borg_suppressor"@ {
        Some(HOSTILE_TAG_MASK_CONQUEROR_BORG_SUPPRESSOR)
    } else if n == "conqueror_borg_obliterator"@ {
        Some(HOSTILE_TAG_MASK_CONQUEROR_BORG_OBLITERATOR)
    } else if n == "aggregation_hostile"@ {
        Some(HOSTILE_TAG_MASK_AGGREGATION_HOSTILE)
    } else {
        None
    }
}

/// The tag bit of a raw slug, if its normal form is known.
pub open spec fn tag_bit_for_slug(s: Seq<char>) -> Option<u32> {
    tag_bit_for_normalized(normalize_slug(s))
}

/// OR of the bits of the known slugs among `slugs`; unknown slugs add nothing.
pub open spec fn mask_of_slugs(slugs: Seq<Seq<char>>) -> u32
    decreases slugs.len(),
{
    if slugs.len() == 0 {
        0
    } else {
        let rest = mask_of_slugs(slugs.drop_last());
        match tag_bit_for_slug(slugs.last()) {
            Some(b) => rest | b,
            None => rest,
        }
    }
}

/// Every slug of `slugs` is known.
pub open spec fn all_slugs_known(slugs: Seq<Seq<char>>) -> bool {
    forall|i: int| 0 <= i < slugs.len() ==> (#[trigger] tag_bit_for_slug(slugs[i])) is Some
}

fn normalize_slug_chars(slug: &str) -> (r: Vec<char>)
    ensures
        r@ == normalize_slug(slug@),
{
    let lower = to_lowercase(trim_str(slug));
    let mut v = str_chars(lower.as_str());
    let ghost orig = v@;
    let mut i: usize = 0;
    while i < v.len()
        invariant
            orig == unicode_lowercase(trim_seq(slug@)),
            v@.len() == orig.len(),
            i <= v@.len(),
            forall|j: int| 0 <= j < i ==> v@[j] == (if orig[j] == '-' { '_' } else { orig[j] }),
            forall|j: int| i <= j < v@.len() ==> v@[j] == orig[j],
        decreases v@.len() - i,
    {
        if v[i] == '-' {
            v.set(i, '_');
        }
        i += 1;
    }
    proof {
        assert(v@ =~= dash_to_underscore(orig));
    }
    v
}

/// Map a single data slug to one tag bit, if known.
pub fn hostile_tag_mask_for_slug(slug: &str) -> (r: Option<u32>)
    ensures
        r == tag_bit_for_slug(slug@),
{
    let n = normalize_slug_chars(slug);
    if chars_eq(&n, &str_chars("conqueror_borg")) {
        Some(HOSTILE_TAG_MASK_CONQUEROR_BORG)
    } else if chars_eq(&n, &str_chars("conqueror_borg_suppressor")) {
        Some(HOSTILE_TAG_MASK_CONQUEROR_BORG_SUPPRESSOR)
    } else if chars_eq(&n, &str_chars("conqueror_borg_obliterator")) {
        Some(HOSTILE_TAG_MASK_CONQUEROR_BORG_OBLITERATOR)
    } else if chars_eq(&n, &str_chars("aggregation_hostile")) {
        Some(HOSTILE_TAG_MASK_AGGREGATION_HOSTILE)
    } else {
        None
    }
}

/// OR together all tag bits of the known slugs; unknown slugs are ignored so
/// forward-compatible data does not break loading.
pub fn mask_from_slugs(slugs: &[String]) -> (m: u32)
    ensures
        m == mask_of_slugs(views(slugs@)),
{
    let mut m: u32 = 0;
    let mut i: usize = 0;
    while i < slugs.len()
        invariant
            i <= slugs@.len(),
            m == mask_of_slugs(views(slugs@.subrange(0, i as int))),
        decreases slugs@.len() - i,
    {
        proof {
            assert(views(slugs@.subrange(0, i + 1)).drop_last() =~= views(
                slugs@.subrange(0, i as int),
            ));
            assert(views(slugs@.subrange(0, i + 1)).last() == slugs@[i as int]@);
        }
        if let Some(b) = hostile_tag_mask_for_slug(slugs[i].as_str()) {
            m = m | b;
        }
        i += 1;
    }
    proof {
        assert(slugs@.subrange(0, slugs@.len() as int) =~= slugs@);
    }
    m
}

/// Bits that must all be set on the defender mask for a gated ability to fire. `None` when
/// any required slug is unknown (the caller drops the ability).
pub fn required_mask_from_condition_slugs(slugs: &[String]) -> (r: Option<u32>)
    ensures
        r is Some <==> all_slugs_known(views(slugs@)),
        r is Some ==> r->0 == mask_of_slugs(views(slugs@)),
{
    let mut bits: u32 = 0;
    let mut i: usize = 0;
    while i < slugs.len()
        invariant
            i <= slugs@.len(),
            all_slugs_known(views(slugs@.subrange(0, i as int))),
            bits == mask_of_slugs(views(slugs@.subrange(0, i as int))),
        decreases slugs@.len() - i,
    {
        proof {
            assert(views(slugs@.subrange(0, i + 1)).drop_last() =~= views(
                slugs@.subrange(0, i as int),
            ));
            assert(views(slugs@.subrange(0, i + 1)).last() == slugs@[i as int]@);
        }
        match hostile_tag_mask_for_slug(slugs[i].as_str()) {
            Some(b) => {
                bits = bits | b;
            },
            None => {
                proof {
                    assert(views(slugs@)[i as int] == slugs@[i as int]@);
                }
                return None;
            },
        }
        i += 1;
        proof {
            let v = views(slugs@.subrange(0, i as int));
            assert forall|j: int| 0 <= j < v.len() implies (#[trigger] tag_bit_for_slug(
                v[j],
            )) is Some by {
                if j < i - 1 {
                    assert(v[j] == views(slugs@.subrange(0, i - 1))[j]);
                }
            }
        }
    }
    proof {
        assert(slugs@.subrange(0, slugs@.len() as int) =~= slugs@);
    }
    Some(bits)
}


/// Unknown slugs are ignored: taking one out of a list, wherever it stands, leaves the mask
/// unchanged.
pub proof fn lemma_unknown_slug_is_ignored(a: Seq<Seq<char>>, u: Seq<char>, b: Seq<Seq<char>>)
    requires
        tag_bit_for_slug(u) is None,
    ensures
        mask_of_slugs(a + seq![u] + b) == mask_of_slugs(a + b),
    decreases b.len(),
{
    if b.len() == 0 {
        assert((a + seq![u] + b).drop_last() =~= a);
        assert((a + seq![u] + b).last() == u);
        assert(a + b =~= a);
    } else {
        lemma_unknown_slug_is_ignored(a, u, b.drop_last());
        assert((a + seq![u] + b).drop_last() =~= a + seq![u] + b.drop_last());
        assert((a + b).drop_last() =~= a + b.drop_last());
        assert((a + seq![u] + b).last() == b.last());
        assert((a + b).last() == b.last());
    }
}

/// Some slug of `slugs` maps to tag bit `bit`.
pub open spec fn some_slug_has_bit(slugs: Seq<Seq<char>>, bit: u32) -> bool {
    exists|k: int| 0 <= k < slugs.len() && #[trigger] tag_bit_for_slug(slugs[k]) == Some(bit)
}

/// The four tag bits.
pub open spec fn is_tag_bit(bit: u32) -> bool {
    bit == HOSTILE_TAG_MASK_CONQUEROR_BORG || bit == HOSTILE_TAG_MASK_CONQUEROR_BORG_SUPPRESSOR
        || bit == HOSTILE_TAG_MASK_CONQUEROR_BORG_OBLITERATOR || bit == HOSTILE_TAG_MASK_AGGREGATION_HOSTILE
}

proof fn lemma_mask_bits(slugs: Seq<Seq<char>>, bit: u32)
    requires
        is_tag_bit(bit),
    ensures
        mask_of_slugs(slugs) <= 0xF,
        (mask_of_slugs(slugs) & bit != 0) <==> some_slug_has_bit(slugs, bit),
    decreases slugs.len(),
{
    if slugs.len() == 0 {
        assert(0u32 & bit == 0) by (bit_vector);
    } else {
        let init = slugs.drop_last();
        lemma_mask_bits(init, bit);
        let rest = mask_of_slugs(init);
        if some_slug_has_bit(init, bit) {
            let k = choose|k: int| 0 <= k < init.len() && #[trigger] tag_bit_for_slug(init[k]) == Some(bit);
            assert(slugs[k] == init[k]);
        }
        if some_slug_has_bit(slugs, bit) {
            let k = choose|k: int| 0 <= k < slugs.len() && #[trigger] tag_bit_for_slug(slugs[k]) == Some(bit);
            if k < init.len() {
                assert(slugs[k] == init[k]);
                assert(tag_bit_for_slug(init[k]) == Some(bit));
            }
        }
        match tag_bit_for_slug(slugs.last()) {
            Some(b) => {
                assert(is_tag_bit(b));
                assert(rest <= 0xF && is_tag_bit(b) && is_tag_bit(bit) ==> (rest | b) <= 0xF && (((rest
                    | b) & bit != 0) == ((rest & bit != 0) || b == bit))) by (bit_vector);
                if b == bit {
                    assert(tag_bit_for_slug(slugs[slugs.len() - 1]) == Some(bit));
                }
            },
            None => {},
        }
    }
}

/// The tag mask of a slug list uses only the four tag bits, and depends only on which slugs
/// occur in the list, not on their order or repetition: two lists with the same known slugs
/// give the same mask.
pub proof fn lemma_mask_ignores_order_and_repetition(a: Seq<Seq<char>>, b: Seq<Seq<char>>)
    requires
        forall|k: int| 0 <= k < a.len() && tag_bit_for_slug(a[k]) is Some ==> #[trigger] b.contains(a[k]),
        forall|k: int| 0 <= k < b.len() && tag_bit_for_slug(b[k]) is Some ==> #[trigger] a.contains(b[k]),
    ensures
        mask_of_slugs(a) & !0xFu32 == 0,
        mask_of_slugs(a) == mask_of_slugs(b),
{
    let x = mask_of_slugs(a);
    let y = mask_of_slugs(b);
    lemma_mask_bits(a, 1);
    lemma_mask_bits(b, 1);
    let bits = seq![
        HOSTILE_TAG_MASK_CONQUEROR_BORG,
        HOSTILE_TAG_MASK_CONQUEROR_BORG_SUPPRESSOR,
        HOSTILE_TAG_MASK_CONQUEROR_BORG_OBLITERATOR,
        HOSTILE_TAG_MASK_AGGREGATION_HOSTILE,
    ];
    assert forall|t: int| 0 <= t < 4 implies ((x & #[trigger] bits[t] != 0) == (y & bits[t] != 0)) by {
        let bit = bits[t];
        lemma_mask_bits(a, bit);
        lemma_mask_bits(b, bit);
        if some_slug_has_bit(a, bit) {
            let k = choose|k: int| 0 <= k < a.len() && #[trigger] tag_bit_for_slug(a[k]) == Some(bit);
            assert(b.contains(a[k]));
            let q = choose|q: int| 0 <= q < b.len() && b[q] == a[k];
            assert(tag_bit_for_slug(b[q]) == Some(bit));
        }
        if some_slug_has_bit(b, bit) {
            let k = choose|k: int| 0 <= k < b.len() && #[trigger] tag_bit_for_slug(b[k]) == Some(bit);
            assert(a.contains(b[k]));
            let q = choose|q: int| 0 <= q < a.len() && a[q] == b[k];
            assert(tag_bit_for_slug(a[q]) == Some(bit));
        }
    }
    assert((x & 1 != 0) == (y & 1 != 0)) by { assert(bits[0] == 1u32); }
    assert((x & 2 != 0) == (y & 2 != 0)) by { assert(bits[1] == 2u32); }
    assert((x & 4 != 0) == (y & 4 != 0)) by { assert(bits[2] == 4u32); }
    assert((x & 8 != 0) == (y & 8 != 0)) by { assert(bits[3] == 8u32); }
    assert(x <= 0xF && y <= 0xF && ((x & 1 != 0) == (y & 1 != 0)) && ((x & 2 != 0) == (y & 2 != 0))
        && ((x & 4 != 0) == (y & 4 != 0)) && ((x & 8 != 0) == (y & 8 != 0)) ==> x == y && x & !0xFu32
        == 0) by (bit_vector);
}

} // verus!
