use vstd::prelude::*;

use crate::account::AccountId;

verus! {

// ---------------------------------------------------------------------------
// Derived account locator.
//
// A logical record's storage key is computed from a namespace tag plus the
// record's field values: each seed is emitted as its length (eight big-endian
// bytes) followed by its bytes. The encoding is deterministic, and it is
// injective (`lemma_derived_key_injective`), so two distinct records can never
// contend for one storage slot and the same record is always found at the same
// slot. The key is its own derivation proof: any party re-derives it from the
// seeds and compares (`verify_key`).
// ---------------------------------------------------------------------------

/// The eight bytes of `n`, most significant first.
pub open spec fn spec_u64_be_bytes(n: u64) -> Seq<u8> {
    seq![
        ((n >> 56) & 0xff) as u8,
        ((n >> 48) & 0xff) as u8,
        ((n >> 40) & 0xff) as u8,
        ((n >> 32) & 0xff) as u8,
        ((n >> 24) & 0xff) as u8,
        ((n >> 16) & 0xff) as u8,
        ((n >> 8) & 0xff) as u8,
        (n & 0xff) as u8,
    ]
}

/// One seed's contribution to a derived key: its length, then its bytes.
pub open spec fn spec_encode_seed(s: Seq<u8>) -> Seq<u8> {
    spec_u64_be_bytes(s.len() as u64) + s
}

/// The derived key for a seed list: the seeds' encodings, concatenated.
pub open spec fn spec_derived_key(seeds: Seq<Seq<u8>>) -> Seq<u8>
    decreases seeds.len(),
{
    if seeds.len() == 0 {
        Seq::empty()
    } else {
        spec_encode_seed(seeds[0]) + spec_derived_key(seeds.drop_first())
    }
}

/// Appends the eight big-endian bytes of `n` to `out`.
fn push_u64_be(out: &mut Vec<u8>, n: u64)
    ensures
        final(out)@ == old(out)@ + spec_u64_be_bytes(n),
{
    proof {
        assert(((n >> 56) & 0xff) < 256 && ((n >> 48) & 0xff) < 256 && ((n >> 40) & 0xff) < 256
            && ((n >> 32) & 0xff) < 256 && ((n >> 24) & 0xff) < 256 && ((n >> 16) & 0xff) < 256
            && ((n >> 8) & 0xff) < 256 && (n & 0xff) < 256) by (bit_vector);
    }
    out.push(((n >> 56) & 0xff) as u8);
    out.push(((n >> 48) & 0xff) as u8);
    out.push(((n >> 40) & 0xff) as u8);
    out.push(((n >> 32) & 0xff) as u8);
    out.push(((n >> 24) & 0xff) as u8);
    out.push(((n >> 16) & 0xff) as u8);
    out.push(((n >> 8) & 0xff) as u8);
    out.push((n & 0xff) as u8);
    proof {
        assert(out@ =~= old(out)@ + spec_u64_be_bytes(n));
    }
}

/// Two u64 values with the same big-endian bytes are the same value.
pub proof fn lemma_u64_be_bytes_injective(m: u64, n: u64)
    requires
        spec_u64_be_bytes(m) == spec_u64_be_bytes(n),
    ensures
        m == n,
{
    assert(spec_u64_be_bytes(m)[0] == spec_u64_be_bytes(n)[0]);
    assert(spec_u64_be_bytes(m)[1] == spec_u64_be_bytes(n)[1]);
    assert(spec_u64_be_bytes(m)[2] == spec_u64_be_bytes(n)[2]);
    assert(spec_u64_be_bytes(m)[3] == spec_u64_be_bytes(n)[3]);
    assert(spec_u64_be_bytes(m)[4] == spec_u64_be_bytes(n)[4]);
    assert(spec_u64_be_bytes(m)[5] == spec_u64_be_bytes(n)[5]);
    assert(spec_u64_be_bytes(m)[6] == spec_u64_be_bytes(n)[6]);
    assert(spec_u64_be_bytes(m)[7] == spec_u64_be_bytes(n)[7]);
    assert((((m >> 56) & 0xff) as u8 == ((n >> 56) & 0xff) as u8
        && ((m >> 48) & 0xff) as u8 == ((n >> 48) & 0xff) as u8
        && ((m >> 40) & 0xff) as u8 == ((n >> 40) & 0xff) as u8
        && ((m >> 32) & 0xff) as u8 == ((n >> 32) & 0xff) as u8
        && ((m >> 24) & 0xff) as u8 == ((n >> 24) & 0xff) as u8
        && ((m >> 16) & 0xff) as u8 == ((n >> 16) & 0xff) as u8
        && ((m >> 8) & 0xff) as u8 == ((n >> 8) & 0xff) as u8
        && (m & 0xff) as u8 == (n & 0xff) as u8) ==> m == n) by (bit_vector);
}

/// Appending a seed to the list appends its encoding to the key.
pub proof fn lemma_derived_key_push(seeds: Seq<Seq<u8>>, s: Seq<u8>)
    ensures
        spec_derived_key(seeds.push(s)) == spec_derived_key(seeds) + spec_encode_seed(s),
    decreases seeds.len(),
{
    if seeds.len() == 0 {
        assert(seeds.push(s)[0] == s);
        assert(seeds.push(s).drop_first() =~= Seq::<Seq<u8>>::empty());
        assert(spec_derived_key(seeds.push(s)) == spec_encode_seed(s) + spec_derived_key(
            Seq::<Seq<u8>>::empty(),
        ));
        assert(spec_derived_key(seeds.push(s))
            =~= spec_derived_key(seeds) + spec_encode_seed(s));
    } else {
        assert(seeds.push(s).drop_first() =~= seeds.drop_first().push(s));
        lemma_derived_key_push(seeds.drop_first(), s);
        assert(spec_derived_key(seeds.push(s))
            =~= spec_derived_key(seeds) + spec_encode_seed(s));
    }
}

/// Computes the derived storage key for a seed list.
pub fn locate(seeds: &Vec<Vec<u8>>) -> (key: Vec<u8>)
    ensures
        key@ == spec_derived_key(seeds.deep_view()),
{
    let mut key: Vec<u8> = Vec::new();
    let mut i: usize = 0;
    while i < seeds.len()
        invariant
            i <= seeds.len(),
            key@ == spec_derived_key(seeds.deep_view().take(i as int)),
        decreases seeds.len() - i,
    {
        let ghost prefix = seeds.deep_view().take(i as int);
        push_u64_be(&mut key, seeds[i].len() as u64);
        let mut j: usize = 0;
        while j < seeds[i].len()
            invariant
                i < seeds.len(),
                j <= seeds@[i as int].len(),
                key@ == spec_derived_key(prefix)
                    + spec_u64_be_bytes(seeds@[i as int]@.len() as u64)
                    + seeds@[i as int]@.take(j as int),
            decreases seeds@[i as int].len() - j,
        {
            key.push(seeds[i][j]);
            proof {
                assert(seeds[i as int]@.take(j + 1) =~= seeds[i as int]@.take(j as int).push(
                    seeds[i as int]@[j as int]));
                assert(key@ =~= spec_derived_key(prefix)
                    + spec_u64_be_bytes(seeds[i as int]@.len() as u64)
                    + seeds[i as int]@.take(j + 1));
            }
            j = j + 1;
        }
        proof {
            let dv = seeds.deep_view();
            assert(seeds[i as int]@.take(seeds[i as int]@.len() as int) =~= seeds[i as int]@);
            assert(dv[i as int] =~= seeds[i as int]@);
            lemma_derived_key_push(prefix, dv[i as int]);
            assert(dv.take(i + 1) =~= prefix.push(dv[i as int]));
            assert(key@ =~= spec_derived_key(dv.take(i + 1)));
        }
        i = i + 1;
    }
    proof {
        assert(seeds.deep_view().take(seeds.len() as int) =~= seeds.deep_view());
    }
    key
}

/// Byte-for-byte equality of two byte vectors.
pub fn bytes_eq(a: &Vec<u8>, b: &Vec<u8>) -> (r: bool)
    ensures
        r == (a@ == b@),
{
    if a.len() != b.len() {
        return false;
    }
    let mut i: usize = 0;
    while i < a.len()
        invariant
            i <= a.len(),
            a.len() == b.len(),
            forall|k: int| 0 <= k < i ==> a@[k] == b@[k],
        decreases a.len() - i,
    {
        if a[i] != b[i] {
            return false;
        }
        i = i + 1;
    }
    proof {
        assert(a@ =~= b@);
    }
    true
}

/// A fresh copy of a byte vector.
pub fn copy_bytes(src: &Vec<u8>) -> (r: Vec<u8>)
    ensures
        r@ == src@,
{
    let mut r: Vec<u8> = Vec::new();
    let mut i: usize = 0;
    while i < src.len()
        invariant
            i <= src.len(),
            r@ == src@.take(i as int),
        decreases src.len() - i,
    {
        r.push(src[i]);
        proof {
            assert(src@.take(i + 1) =~= src@.take(i as int).push(src@[i as int]));
        }
        i = i + 1;
    }
    proof {
        assert(src@.take(src@.len() as int) =~= src@);
    }
    r
}

/// Re-derives a key from its seeds and checks it: true exactly when `key` is
/// the derived key for `seeds`.
pub fn verify_key(key: &Vec<u8>, seeds: &Vec<Vec<u8>>) -> (r: bool)
    ensures
        r == (key@ == spec_derived_key(seeds.deep_view())),
{
    let expected = locate(seeds);
    bytes_eq(key, &expected)
}

/// Same seed lists, same key; distinct seed lists, distinct keys.
pub proof fn lemma_derived_key_injective(a: Seq<Seq<u8>>, b: Seq<Seq<u8>>)
    requires
        forall|i: int| 0 <= i < a.len() ==> (#[trigger] a[i]).len() <= u64::MAX,
        forall|i: int| 0 <= i < b.len() ==> (#[trigger] b[i]).len() <= u64::MAX,
        spec_derived_key(a) == spec_derived_key(b),
    ensures
        a == b,
    decreases a.len(),
{
    if a.len() == 0 && b.len() == 0 {
        assert(a =~= b);
    } else if a.len() == 0 {
        assert(spec_derived_key(b).len() >= 8);
        assert(false);
    } else if b.len() == 0 {
        assert(spec_derived_key(a).len() >= 8);
        assert(false);
    } else {
        let key = spec_derived_key(a);
        let a0 = a[0];
        let b0 = b[0];
        let ra = spec_derived_key(a.drop_first());
        let rb = spec_derived_key(b.drop_first());
        assert(key == spec_encode_seed(a0) + ra);
        assert(key == spec_encode_seed(b0) + rb);
        let la = spec_u64_be_bytes(a0.len() as u64);
        let lb = spec_u64_be_bytes(b0.len() as u64);
        assert forall|j: int| 0 <= j < 8 implies la[j] == lb[j] by {
            assert((spec_encode_seed(a0) + ra)[j] == la[j]);
            assert((spec_encode_seed(b0) + rb)[j] == lb[j]);
        }
        assert(la =~= lb);
        lemma_u64_be_bytes_injective(a0.len() as u64, b0.len() as u64);
        assert(a0.len() == b0.len());
        assert forall|j: int| 0 <= j < a0.len() implies a0[j] == b0[j] by {
            assert((spec_encode_seed(a0) + ra)[8 + j] == a0[j]);
            assert((spec_encode_seed(b0) + rb)[8 + j] == b0[j]);
        }
        assert(a0 =~= b0);
        assert(ra.len() == rb.len());
        assert forall|j: int| 0 <= j < ra.len() implies ra[j] == rb[j] by {
            assert((spec_encode_seed(a0) + ra)[8 + a0.len() + j] == ra[j]);
            assert((spec_encode_seed(b0) + rb)[8 + b0.len() + j] == rb[j]);
        }
        assert(ra =~= rb);
        assert forall|i: int| 0 <= i < a.drop_first().len()
            implies (#[trigger] a.drop_first()[i]).len() <= u64::MAX by {
            assert(a.drop_first()[i] == a[i + 1]);
        }
        assert forall|i: int| 0 <= i < b.drop_first().len()
            implies (#[trigger] b.drop_first()[i]).len() <= u64::MAX by {
            assert(b.drop_first()[i] == b[i + 1]);
        }
        lemma_derived_key_injective(a.drop_first(), b.drop_first());
        assert forall|i: int| 0 <= i < a.len() implies a[i] == b[i] by {
            if i > 0 {
                assert(a.drop_first()[i - 1] == a[i]);
                assert(b.drop_first()[i - 1] == b[i]);
            }
        }
        assert(a =~= b);
    }
}

// ---------------------------------------------------------------------------
// The three record namespaces.
// ---------------------------------------------------------------------------

/// The namespace tag of the singleton program state: `program_state`.
pub open spec fn spec_program_state_tag() -> Seq<u8> {
    seq![112u8, 114u8, 111u8, 103u8, 114u8, 97u8, 109u8, 95u8, 115u8, 116u8, 97u8, 116u8, 101u8]
}

/// The namespace tag of a transaction record: `transaction`.
pub open spec fn spec_transaction_tag() -> Seq<u8> {
    seq![116u8, 114u8, 97u8, 110u8, 115u8, 97u8, 99u8, 116u8, 105u8, 111u8, 110u8]
}

/// The namespace tag of a user-rewards record: `user_rewards`.
pub open spec fn spec_user_rewards_tag() -> Seq<u8> {
    seq![117u8, 115u8, 101u8, 114u8, 95u8, 114u8, 101u8, 119u8, 97u8, 114u8, 100u8, 115u8]
}

fn program_state_tag() -> (t: Vec<u8>)
    ensures
        t@ == spec_program_state_tag(),
{
    let mut t: Vec<u8> = Vec::new();
    t.push(112u8);
    t.push(114u8);
    t.push(111u8);
    t.push(103u8);
    t.push(114u8);
    t.push(97u8);
    t.push(109u8);
    t.push(95u8);
    t.push(115u8);
    t.push(116u8);
    t.push(97u8);
    t.push(116u8);
    t.push(101u8);
    proof {
        assert(t@ =~= spec_program_state_tag());
    }
    t
}

fn transaction_tag() -> (t: Vec<u8>)
    ensures
        t@ == spec_transaction_tag(),
{
    let mut t: Vec<u8> = Vec::new();
    t.push(116u8);
    t.push(114u8);
    t.push(97u8);
    t.push(110u8);
    t.push(115u8);
    t.push(97u8);
    t.push(99u8);
    t.push(116u8);
    t.push(105u8);
    t.push(111u8);
    t.push(110u8);
    proof {
        assert(t@ =~= spec_transaction_tag());
    }
    t
}

fn user_rewards_tag() -> (t: Vec<u8>)
    ensures
        t@ == spec_user_rewards_tag(),
{
    let mut t: Vec<u8> = Vec::new();
    t.push(117u8);
    t.push(115u8);
    t.push(101u8);
    t.push(114u8);
    t.push(95u8);
    t.push(114u8);
    t.push(101u8);
    t.push(119u8);
    t.push(97u8);
    t.push(114u8);
    t.push(100u8);
    t.push(115u8);
    proof {
        assert(t@ =~= spec_user_rewards_tag());
    }
    t
}

/// The storage key of the singleton program state.
pub open spec fn spec_program_state_key() -> Seq<u8> {
    spec_derived_key(seq![spec_program_state_tag()])
}

/// The storage key of the transaction record for identifier `id`.
pub open spec fn spec_transaction_key(id: Seq<u8>) -> Seq<u8> {
    spec_derived_key(seq![spec_transaction_tag(), id])
}

/// The storage key of the user-rewards record for user `user`.
pub open spec fn spec_user_rewards_key(user: AccountId) -> Seq<u8> {
    spec_derived_key(seq![spec_user_rewards_tag(), spec_u64_be_bytes(user.value)])
}

/// Derives the storage key of the singleton program state.
pub fn program_state_key() -> (key: Vec<u8>)
    ensures
        key@ == spec_program_state_key(),
{
    let mut seeds: Vec<Vec<u8>> = Vec::new();
    seeds.push(program_state_tag());
    let key = locate(&seeds);
    proof {
        assert(seeds.deep_view() =~~= seq![spec_program_state_tag()]);
    }
    key
}

/// Derives the storage key of the transaction record for `id`.
pub fn transaction_key(id: &Vec<u8>) -> (key: Vec<u8>)
    ensures
        key@ == spec_transaction_key(id@),
{
    let mut seeds: Vec<Vec<u8>> = Vec::new();
    seeds.push(transaction_tag());
    seeds.push(copy_bytes(id));
    let key = locate(&seeds);
    proof {
        assert(seeds.deep_view() =~~= seq![spec_transaction_tag(), id@]);
    }
    key
}

/// Derives the storage key of the user-rewards record for `user`.
pub fn user_rewards_key(user: AccountId) -> (key: Vec<u8>)
    ensures
        key@ == spec_user_rewards_key(user),
{
    let mut seeds: Vec<Vec<u8>> = Vec::new();
    seeds.push(user_rewards_tag());
    let mut user_bytes: Vec<u8> = Vec::new();
    push_u64_be(&mut user_bytes, user.value);
    proof {
        assert(user_bytes@ =~= spec_u64_be_bytes(user.value));
    }
    seeds.push(user_bytes);
    let key = locate(&seeds);
    proof {
        assert(seeds.deep_view() =~~= seq![spec_user_rewards_tag(), spec_u64_be_bytes(
            user.value,
        )]);
    }
    key
}

/// Distinct transaction identifiers always land in distinct storage slots.
pub proof fn lemma_transaction_key_injective(x: Seq<u8>, y: Seq<u8>)
    requires
        x.len() <= u64::MAX,
        y.len() <= u64::MAX,
        spec_transaction_key(x) == spec_transaction_key(y),
    ensures
        x == y,
{
    let a = seq![spec_transaction_tag(), x];
    let b = seq![spec_transaction_tag(), y];
    assert forall|i: int| 0 <= i < a.len() implies (#[trigger] a[i]).len() <= u64::MAX by {
        assert(a[0] == spec_transaction_tag() && a[1] == x);
    }
    assert forall|i: int| 0 <= i < b.len() implies (#[trigger] b[i]).len() <= u64::MAX by {
        assert(b[0] == spec_transaction_tag() && b[1] == y);
    }
    lemma_derived_key_injective(a, b);
    assert(x == a[1] && y == b[1]);
}

/// Distinct users always land in distinct user-rewards slots.
pub proof fn lemma_user_rewards_key_injective(x: AccountId, y: AccountId)
    requires
        spec_user_rewards_key(x) == spec_user_rewards_key(y),
    ensures
        x == y,
{
    let a = seq![spec_user_rewards_tag(), spec_u64_be_bytes(x.value)];
    let b = seq![spec_user_rewards_tag(), spec_u64_be_bytes(y.value)];
    assert forall|i: int| 0 <= i < a.len() implies (#[trigger] a[i]).len() <= u64::MAX by {
        assert(a[0] == spec_user_rewards_tag() && a[1] == spec_u64_be_bytes(x.value));
    }
    assert forall|i: int| 0 <= i < b.len() implies (#[trigger] b[i]).len() <= u64::MAX by {
        assert(b[0] == spec_user_rewards_tag() && b[1] == spec_u64_be_bytes(y.value));
    }
    lemma_derived_key_injective(a, b);
    assert(spec_u64_be_bytes(x.value) == a[1] && spec_u64_be_bytes(y.value) == b[1]);
    lemma_u64_be_bytes_injective(x.value, y.value);
}

} // verus!
