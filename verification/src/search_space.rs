//! The partitioned search space: worker `i` probes header values
//! `"<i>-<attempt in hex>"`. Distinct partitions never generate the same
//! value whatever their attempt counters, and one partition never repeats a
//! value, so no candidate is ever probed twice across the worker pool.

use crate::digits::{
    dec_bytes, hex_bytes, lemma_dec_bytes_range, lemma_dec_injective, lemma_hex_bytes_range,
    lemma_hex_injective, spec_dec, spec_hex,
};
use vstd::prelude::*;

verus! {

/// The header value probed by partition `partition` at attempt `attempt`:
/// the partition index in decimal, a dash, the attempt counter in lowercase
/// hexadecimal.
pub open spec fn spec_generate(partition: nat, attempt: nat) -> Seq<u8> {
    spec_dec(partition) + seq![45u8] + spec_hex(attempt)
}

/// Builds the candidate header value for one attempt of one partition.
pub fn generate(partition: usize, attempt: u64) -> (r: Vec<u8>)
    ensures
        r@ == spec_generate(partition as nat, attempt as nat),
{
    let mut v = dec_bytes(partition);
    v.push(45);
    let mut hx = hex_bytes(attempt);
    v.append(&mut hx);
    proof {
        assert(v@ =~= spec_generate(partition as nat, attempt as nat));
    }
    v
}

/// Generated header values are globally unique: two equal values can only
/// come from the same partition at the same attempt. In particular, workers
/// with distinct partition indices never probe the same candidate.
pub proof fn lemma_generate_injective(i1: nat, n1: nat, i2: nat, n2: nat)
    requires
        spec_generate(i1, n1) == spec_generate(i2, n2),
    ensures
        i1 == i2,
        n1 == n2,
{
    let d1 = spec_dec(i1);
    let d2 = spec_dec(i2);
    let h1 = spec_hex(n1);
    let h2 = spec_hex(n2);
    let g = spec_generate(i1, n1);
    lemma_dec_bytes_range(i1);
    lemma_dec_bytes_range(i2);
    lemma_hex_bytes_range(n1);
    lemma_hex_bytes_range(n2);
    assert(g[d1.len() as int] == 45);
    assert(spec_generate(i2, n2)[d2.len() as int] == 45);
    if d1.len() < d2.len() {
        assert(g[d1.len() as int] == d2[d1.len() as int]);
        assert(48 <= d2[d1.len() as int] <= 57);
        assert(false);
    } else if d2.len() < d1.len() {
        assert(g[d2.len() as int] == d1[d2.len() as int]);
        assert(48 <= d1[d2.len() as int] <= 57);
        assert(false);
    }
    assert(d1.len() == d2.len());
    assert(d1 =~= d2) by {
        assert(forall|j: int| 0 <= j < d1.len() ==> #[trigger] d1[j] == g[j] && d2[j] == g[j]);
    }
    lemma_dec_injective(i1, i2);
    assert(g.len() == d1.len() + 1 + h1.len());
    assert(g.len() == d2.len() + 1 + h2.len());
    assert(h1.len() == h2.len());
    assert(h1 =~= h2) by {
        assert(forall|j: int|
            0 <= j < h1.len() ==> #[trigger] h1[j] == g[d1.len() + 1 + j] && h2[j] == g[d1.len()
                + 1 + j]);
    }
    lemma_hex_injective(n1, n2);
}

} // verus!
