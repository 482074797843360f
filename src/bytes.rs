use vstd::prelude::*;

verus! {

/// `256` to the power `n`.
pub open spec fn pow256(n: nat) -> nat
    decreases n,
{
    if n == 0 {
        1
    } else {
        256 * pow256((n - 1) as nat)
    }
}

/// The number that a run of bytes stands for, least significant byte first.
pub open spec fn le_value(s: Seq<u8>) -> nat
    decreases s.len(),
{
    if s.len() == 0 {
        0
    } else {
        s[0] as nat + 256 * le_value(s.drop_first())
    }
}

/// The `n` lowest bytes of `x`, least significant first.
pub open spec fn le_bytes(x: nat, n: nat) -> Seq<u8>
    decreases n,
{
    if n == 0 {
        Seq::empty()
    } else {
        seq![(x % 256) as u8] + le_bytes(x / 256, (n - 1) as nat)
    }
}

/// The bytes padded with zeros up to a multiple of eight.
pub open spec fn padded(b: Seq<u8>) -> Seq<u8> {
    let rem = b.len() % 8;
    if rem == 0 {
        b
    } else {
        b + Seq::new((8 - rem) as nat, |i: int| 0u8)
    }
}

/// The words that the padded bytes make, eight bytes to a word, least significant
/// byte first.
pub open spec fn words(b: Seq<u8>) -> Seq<u64> {
    let p = padded(b);
    Seq::new(p.len() / 8, |k: int| le_value(p.subrange(8 * k, 8 * k + 8)) as u64)
}

pub proof fn lemma_le_value_bound(s: Seq<u8>)
    ensures
        le_value(s) < pow256(s.len()),
    decreases s.len(),
{
    if s.len() > 0 {
        lemma_le_value_bound(s.drop_first());
        let a = s[0] as nat;
        let v = le_value(s.drop_first());
        let p = pow256(s.drop_first().len());
        assert(a + 256 * v < 256 * p) by (nonlinear_arith)
            requires
                a < 256,
                v < p,
        ;
    }
}

/// The eight bytes of `v`, least significant first.
pub fn u64_to_le_bytes(v: u64) -> (r: Vec<u8>)
    ensures
        r@ == le_bytes(v as nat, 8),
{
    let mut r: Vec<u8> = Vec::new();
    let mut x: u64 = v;
    let mut i: usize = 0;
    while i < 8
        invariant
            i <= 8,
            r@ + le_bytes(x as nat, (8 - i) as nat) == le_bytes(v as nat, 8),
        decreases 8 - i,
    {
        proof {
            assert(le_bytes(x as nat, (8 - i) as nat) == seq![(x % 256) as u8] + le_bytes(
                (x / 256) as nat,
                (8 - i - 1) as nat,
            ));
        }
        r.push((x % 256) as u8);
        proof {
            assert(r@ + le_bytes((x / 256) as nat, (8 - i - 1) as nat) =~= le_bytes(v as nat, 8));
        }
        x = x / 256;
        i = i + 1;
    }
    proof {
        assert(r@ + le_bytes(x as nat, 0) =~= r@);
    }
    r
}

/// The word that eight bytes make, least significant byte first.
pub fn u64_from_le_bytes(b: &Vec<u8>, at: usize) -> (r: u64)
    requires
        at + 8 <= b@.len() <= usize::MAX,
    ensures
        r as nat == le_value(b@.subrange(at as int, at + 8)),
{
    let mut w: u64 = 0;
    let mut j: usize = 8;
    proof {
        assert(b@.subrange(at + 8, at + 8).len() == 0);
        reveal_with_fuel(pow256, 8);
    }
    while j > 0
        invariant
            j <= 8,
            at + 8 <= b@.len() <= usize::MAX,
            w as nat == le_value(b@.subrange(at + j, at + 8)),
            pow256(7) == 0x0100_0000_0000_0000,
        decreases j,
    {
        let ghost tail = b@.subrange(at + j, at + 8);
        let ghost s = b@.subrange(at + j - 1, at + 8);
        proof {
            assert(s.drop_first() =~= tail);
            lemma_le_value_bound(tail);
            lemma_pow256_mono(tail.len(), 7);
        }
        let byte = b[at + j - 1];
        assert(s[0] == byte);
        w = byte as u64 + 256 * w;
        j = j - 1;
    }
    w
}

proof fn lemma_pow256_mono(a: nat, b: nat)
    requires
        a <= b,
    ensures
        pow256(a) <= pow256(b),
    decreases b,
{
    if a < b {
        lemma_pow256_mono(a, (b - 1) as nat);
    }
}

/// Packs bytes into words, eight to a word and least significant byte first,
/// after padding them with zeros to a multiple of eight; also gives the number of
/// bytes before padding.
pub fn array_to_u64(v: Vec<u8>) -> (r: (Vec<u64>, u64))
    requires
        v@.len() + 8 <= usize::MAX,
    ensures
        r.0@ == words(v@),
        r.1 == v@.len(),
{
    let mut data = v;
    let len = data.len();
    let delta = len % 8;
    if delta != 0 {
        let mut k: usize = 0;
        while k < 8 - delta
            invariant
                delta == len % 8,
                delta != 0,
                len == v@.len(),
                k <= 8 - delta,
                data@ == v@ + Seq::new(k as nat, |i: int| 0u8),
            decreases 8 - delta - k,
        {
            data.push(0);
            k = k + 1;
            proof {
                assert(data@ =~= v@ + Seq::new(k as nat, |i: int| 0u8));
            }
        }
    }
    proof {
        assert(data@ =~= padded(v@));
        assert(data@.len() <= usize::MAX);
    }
    let n = data.len() / 8;
    let mut out: Vec<u64> = Vec::new();
    let mut k: usize = 0;
    while k < n
        invariant
            data@ == padded(v@),
            data@.len() <= usize::MAX,
            n == data@.len() / 8,
            k <= n,
            out@.len() == k,
            forall|i: int| 0 <= i < k ==> #[trigger] out@[i] == words(v@)[i],
        decreases n - k,
    {
        proof {
            let m = data@.len() as int;
            assert(8 * k + 8 <= m) by (nonlinear_arith)
                requires
                    k < n,
                    n == m / 8,
                    m >= 0,
            ;
        }
        let w = u64_from_le_bytes(&data, 8 * k);
        out.push(w);
        k = k + 1;
    }
    proof {
        assert(out@ =~= words(v@));
    }
    (out, len as u64)
}

} // verus!
