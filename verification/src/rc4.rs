//! The RC4 stream cipher that protects request and response bodies.
use vstd::prelude::*;

verus! {

/// Exchanges the entries at `a` and `b`.
pub open spec fn swap_entries(s: Seq<u8>, a: int, b: int) -> Seq<u8> {
    s.update(a, s[b]).update(b, s[a])
}

/// The permutation before key scheduling: entry `k` holds `k`.
pub open spec fn identity_state() -> Seq<u8> {
    Seq::new(256, |k: int| k as u8)
}

/// The state and the index `j` after the first `n` rounds of key scheduling.
pub open spec fn key_schedule(key: Seq<u8>, n: nat) -> (Seq<u8>, int)
    decreases n,
{
    if n == 0 {
        (identity_state(), 0)
    } else {
        let prev = key_schedule(key, (n - 1) as nat);
        let s = prev.0;
        let i = n - 1;
        let j = (prev.1 + s[i] + key[i % (key.len() as int)]) % 256;
        (swap_entries(s, i, j), j)
    }
}

/// The state, the indices `i` and `j`, and the key stream after `n` output
/// rounds, starting from the scheduled permutation `s0`.
pub open spec fn generate(s0: Seq<u8>, n: nat) -> (Seq<u8>, int, int, Seq<u8>)
    decreases n,
{
    if n == 0 {
        (s0, 0, 0, Seq::empty())
    } else {
        let prev = generate(s0, (n - 1) as nat);
        let s = prev.0;
        let i = (prev.1 + 1) % 256;
        let j = (prev.2 + s[i]) % 256;
        let t = swap_entries(s, i, j);
        let k = t[((t[i] as int + t[j] as int) % 256)];
        (t, i, j, prev.3.push(k))
    }
}

/// The first `n` bytes of the key stream for `key`.
pub open spec fn key_stream(key: Seq<u8>, n: nat) -> Seq<u8> {
    generate(key_schedule(key, 256).0, n).3
}

/// Byte-wise exclusive or of `data` with a stream at least as long.
pub open spec fn xor_bytes(data: Seq<u8>, stream: Seq<u8>) -> Seq<u8> {
    Seq::new(data.len(), |k: int| data[k] ^ stream[k])
}

/// RC4 applied to `data` under `key`.
pub open spec fn rc4(key: Seq<u8>, data: Seq<u8>) -> Seq<u8> {
    xor_bytes(data, key_stream(key, data.len()))
}

proof fn lemma_key_schedule_len(key: Seq<u8>, n: nat)
    requires
        n <= 256,
        key.len() > 0,
    ensures
        key_schedule(key, n).0.len() == 256,
        0 <= key_schedule(key, n).1 < 256,
    decreases n,
{
    if n > 0 {
        lemma_key_schedule_len(key, (n - 1) as nat);
    }
}

proof fn lemma_generate_len(s0: Seq<u8>, n: nat)
    requires
        s0.len() == 256,
    ensures
        generate(s0, n).0.len() == 256,
        0 <= generate(s0, n).1 < 256,
        0 <= generate(s0, n).2 < 256,
        generate(s0, n).3.len() == n,
    decreases n,
{
    if n > 0 {
        lemma_generate_len(s0, (n - 1) as nat);
    }
}

/// In the output phase the index `i` runs modulo 256: the byte produced in
/// round `n` (counting from one) uses `i = n mod 256`, so after `n` rounds
/// `i` is `n mod 256`, and the key stream has one byte per round.
pub proof fn rc4_output_index_runs_modulo_256(s0: Seq<u8>, n: nat)
    requires
        s0.len() == 256,
    ensures
        generate(s0, n).1 == n % 256,
        generate(s0, n).3.len() == n,
    decreases n,
{
    if n > 0 {
        rc4_output_index_runs_modulo_256(s0, (n - 1) as nat);
        let m = (n - 1) as nat;
        assert(((m % 256) + 1) % 256 == n % 256);
    }
}

/// The key stream of a key is the keystream of RC4 from its scheduled
/// state, each round `n` swapping the entries at `n mod 256` and the running
/// index `j`, and emitting the entry at the sum of the two swapped values.
pub proof fn rc4_rounds_use_the_round_index(key: Seq<u8>, n: nat)
    requires
        key.len() > 0,
        n > 0,
    ensures
        ({
            let s0 = key_schedule(key, 256).0;
            let prev = generate(s0, (n - 1) as nat);
            let now = generate(s0, n);
            let i = (n % 256) as int;
            let j = (prev.2 + prev.0[i]) % 256;
            &&& now.0 == swap_entries(prev.0, i, j)
            &&& key_stream(key, n)[n - 1] == now.0[(now.0[i] as int + now.0[j] as int) % 256]
        }),
{
    lemma_key_schedule_len(key, 256);
    let s0 = key_schedule(key, 256).0;
    rc4_output_index_runs_modulo_256(s0, (n - 1) as nat);
    let m = (n - 1) as nat;
    assert(((m % 256) + 1) % 256 == n % 256);
    lemma_generate_len(s0, m);
}

/// Encrypts or decrypts `data` with RC4 under `key`.
pub fn rc4_crypt(key: &[u8], data: &[u8]) -> (out: Vec<u8>)
    requires
        key@.len() > 0,
    ensures
        out@ == rc4(key@, data@),
{
    let mut state: Vec<u8> = Vec::new();
    let mut k: usize = 0;
    while k < 256
        invariant
            k <= 256,
            state@ == identity_state().take(k as int),
        decreases 256 - k,
    {
        state.push(k as u8);
        k = k + 1;
        assert(state@ == identity_state().take(k as int));
    }
    assert(state@ == identity_state());

    let mut j: usize = 0;
    let mut i: usize = 0;
    while i < 256
        invariant
            i <= 256,
            key@.len() > 0,
            state@.len() == 256,
            j < 256,
            state@ == key_schedule(key@, i as nat).0,
            j as int == key_schedule(key@, i as nat).1,
        decreases 256 - i,
    {
        proof {
            lemma_key_schedule_len(key@, (i + 1) as nat);
        }
        j = (j + state[i] as usize + key[i % key.len()] as usize) % 256;
        let t = state[i];
        let u = state[j];
        state.set(i, u);
        state.set(j, t);
        i = i + 1;
    }

    let ghost s0 = state@;
    let mut i: usize = 0;
    let mut j: usize = 0;
    let mut out: Vec<u8> = Vec::new();
    let mut n: usize = 0;
    while n < data.len()
        invariant
            n <= data@.len(),
            s0.len() == 256,
            state@ == generate(s0, n as nat).0,
            i as int == generate(s0, n as nat).1,
            j as int == generate(s0, n as nat).2,
            i < 256,
            j < 256,
            state@.len() == 256,
            out@ == xor_bytes(data@.take(n as int), generate(s0, n as nat).3),
        decreases data@.len() - n,
    {
        proof {
            lemma_generate_len(s0, n as nat);
            lemma_generate_len(s0, (n + 1) as nat);
        }
        i = (i + 1) % 256;
        j = (j + state[i] as usize) % 256;
        let t = state[i];
        let u = state[j];
        state.set(i, u);
        state.set(j, t);
        let key_byte = state[(state[i] as usize + state[j] as usize) % 256];
        out.push(data[n] ^ key_byte);
        n = n + 1;
        assert(out@ == xor_bytes(data@.take(n as int), generate(s0, n as nat).3));
    }
    assert(data@.take(data@.len() as int) == data@);
    out
}

/// Applying RC4 twice under the same key gives the data back: the same
/// function encrypts requests and decrypts responses.
pub proof fn rc4_is_an_involution(key: Seq<u8>, data: Seq<u8>)
    requires
        key.len() > 0,
    ensures
        rc4(key, rc4(key, data)) == data,
{
    lemma_key_schedule_len(key, 256);
    let s0 = key_schedule(key, 256).0;
    lemma_generate_len(s0, data.len());
    let ks = key_stream(key, data.len());
    let once = rc4(key, data);
    assert(once.len() == data.len());
    assert forall|k: int| 0 <= k < data.len() implies #[trigger] rc4(key, once)[k] == data[k] by {
        let a = data[k];
        let b = ks[k];
        assert((a ^ b) ^ b == a) by (bit_vector);
    }
    assert(rc4(key, once) =~= data);
}

} // verus!
